//! Documents as text for people to read: a heading with the version, then
//! each statement on a numbered line, an edit's properties each on a line
//! of its own. How a number is written is the caller's to say.

use vstd::prelude::*;
use crate::document::{
    AdfDocument, AdfStatement, DocumentModel, ImportModel, PropertyModel, operation_debug,
    StatementModel, Value, ValueModel, properties_model_of, statements_model_of,
};
use crate::text::{decimal, push_decimal};

verus! {

/// What `{:?}` writes for a string: the string between double quotes, its
/// characters escaped as `str`'s `Debug` escapes them.
pub uninterp spec fn str_debug(s: Seq<char>) -> Seq<char>;

/// `Debug` of `str`: the quoted, escaped text, named by `str_debug`, a
/// function of the characters alone; nothing more is said of it here.
#[verifier::external_body]
fn debug_quoted(s: &str) -> (r: String)
    ensures
        r@ == str_debug(s@),
{
    format!("{s:?}")
}

/// Whether `f` wrote `t` for the number with bits `x`, on some call.
pub open spec fn shows<F: Fn(u64) -> String>(f: F, x: u64, t: Seq<char>) -> bool {
    exists|r: String| r@ == t && #[trigger] call_ensures(f, (x,), r)
}

/// Whether `f` can be called on any bits and writes one text for each.
pub open spec fn writes_one_text<F: Fn(u64) -> String>(f: F) -> bool {
    &&& forall|x: u64| call_requires(f, (x,))
    &&& forall|x: u64, t1: Seq<char>, t2: Seq<char>|
        #[trigger] shows(f, x, t1) && #[trigger] shows(f, x, t2) ==> t1 == t2
}

/// The text that `f` writes for each number.
pub open spec fn shown_by<F: Fn(u64) -> String>(f: F) -> spec_fn(u64) -> Seq<char> {
    |x: u64| choose|t: Seq<char>| #[trigger] shows(f, x, t)
}

/// `{:>2}`: the numeral, padded with a space on the left to two places.
pub open spec fn right_aligned2(n: nat) -> Seq<char> {
    if decimal(n).len() < 2 {
        seq![' '] + decimal(n)
    } else {
        decimal(n)
    }
}

/// A value as text: a number as `show` writes it, a string quoted, an
/// identifier as it is, a boolean as `true` or `false`, a vector as its
/// items between brackets, separated by `, `.
pub open spec fn value_text(v: ValueModel, show: spec_fn(u64) -> Seq<char>) -> Seq<char>
    decreases v, 0int,
{
    match v {
        ValueModel::Number(x) => show(x),
        ValueModel::Str(s) => str_debug(s),
        ValueModel::Ident(s) => s,
        ValueModel::Bool(b) => if b {
            "true"@
        } else {
            "false"@
        },
        ValueModel::Vector(vs) => "["@ + items_text(vs, show, 0) + "]"@,
    }
}

/// The items from `i` on, each after a `, ` but the first of all.
pub open spec fn items_text(vs: Seq<ValueModel>, show: spec_fn(u64) -> Seq<char>, i: int) -> Seq<
    char,
>
    decreases vs, vs.len() - i,
{
    if i < 0 || i >= vs.len() {
        Seq::empty()
    } else {
        (if i > 0 {
            ", "@
        } else {
            Seq::empty()
        }) + value_text(vs[i], show) + items_text(vs, show, i + 1)
    }
}

/// The lines of an edit's properties from `i` on: `      <key> = <value>`.
pub open spec fn properties_text(ps: Seq<PropertyModel>, show: spec_fn(u64) -> Seq<char>, i: int) -> Seq<
    char,
>
    decreases ps.len() - i,
{
    if i < 0 || i >= ps.len() {
        Seq::empty()
    } else {
        "      "@ + ps[i].key + " = "@ + value_text(ps[i].value, show) + "\n"@ + properties_text(
            ps,
            show,
            i + 1,
        )
    }
}

/// The line of an import: `  <n>. material import [<alias> ]from "<path>"`.
pub open spec fn import_text(i: ImportModel, number: nat) -> Seq<char> {
    "  "@ + right_aligned2(number) + ". material import "@ + match i.alias {
        Some(a) => a + " "@,
        None => Seq::empty(),
    } + "from "@ + str_debug(i.path) + "\n"@
}

/// The lines of a statement numbered `number`: an import's line, or an
/// edit's line `  <n>. <Operation> <primitive>` and its properties.
pub open spec fn statement_text(st: StatementModel, number: nat, show: spec_fn(u64) -> Seq<char>) -> Seq<
    char,
> {
    match st {
        StatementModel::MaterialImport(i) => import_text(i, number),
        StatementModel::Edit(e) => "  "@ + right_aligned2(number) + ". "@ + operation_debug(
            e.operation,
        ) + " "@ + e.primitive + "\n"@ + properties_text(e.properties, show, 0),
    }
}

/// The lines of the statements from `i` on, numbered from 1.
pub open spec fn statements_text(ss: Seq<StatementModel>, show: spec_fn(u64) -> Seq<char>, i: int) -> Seq<
    char,
>
    decreases ss.len() - i,
{
    if i < 0 || i >= ss.len() {
        Seq::empty()
    } else {
        statement_text(ss[i], (i + 1) as nat, show) + statements_text(ss, show, i + 1)
    }
}

/// A document as text: `ADF v<version>`, then its statements.
pub open spec fn document_text(d: DocumentModel, show: spec_fn(u64) -> Seq<char>) -> Seq<char> {
    "ADF v"@ + decimal(d.version as nat) + "\n"@ + statements_text(d.statements, show, 0)
}

fn push_value_text<F: Fn(u64) -> String>(out: &mut String, v: &Value, show: &F)
    requires
        writes_one_text(*show),
    ensures
        final(out)@ == old(out)@ + value_text(v@, shown_by(*show)),
    decreases v@,
{
    let ghost sh = shown_by(*show);
    match v {
        Value::Number(x) => {
            let t = show(*x);
            proof {
                assert(shows(*show, *x, t@));
            }
            out.push_str(t.as_str());
        },
        Value::String(s) => {
            let t = debug_quoted(s.as_str());
            out.push_str(t.as_str());
        },
        Value::Ident(s) => {
            out.push_str(s.as_str());
        },
        Value::Bool(b) => {
            if *b {
                out.push_str("true");
            } else {
                out.push_str("false");
            }
        },
        Value::Vector(xs) => {
            let ghost m = v@->Vector_0;
            let ghost start = out@;
            out.push_str("[");
            let mut i: usize = 0;
            while i < xs.len()
                invariant
                    writes_one_text(*show),
                    sh == shown_by(*show),
                    i <= xs@.len(),
                    m.len() == xs@.len(),
                    forall|j: int| 0 <= j < xs@.len() ==> m[j] == (#[trigger] xs@[j])@,
                    v@ == ValueModel::Vector(m),
                    out@ + items_text(m, sh, i as int) == start + "["@ + items_text(m, sh, 0),
                decreases xs@.len() - i,
            {
                let ghost before = out@;
                if i > 0 {
                    out.push_str(", ");
                }
                proof {
                    assert(decreases_to!(v@ => v@->Vector_0));
                    assert(decreases_to!(m => m[i as int]));
                }
                let ghost mid = out@;
                push_value_text(out, &xs[i], show);
                proof {
                    let sep = if i > 0 {
                        ", "@
                    } else {
                        Seq::<char>::empty()
                    };
                    assert(mid == before + sep);
                    assert(items_text(m, sh, i as int) == sep + value_text(m[i as int], sh)
                        + items_text(m, sh, i + 1));
                    assert(out@ + items_text(m, sh, i + 1) =~= before + items_text(m, sh, i as int));
                }
                i = i + 1;
            }
            out.push_str("]");
            proof {
                assert(out@ =~= start + ("["@ + items_text(m, sh, 0) + "]"@));
            }
        },
    }
}

/// Writes a value as text: a number as `number` writes it (given the bits
/// of its binary64 value), a string quoted as `{:?}` quotes it, an
/// identifier as it is, a boolean as `true` or `false`, a vector as its
/// items between brackets, separated by `, `.
pub fn describe_value<F: Fn(u64) -> String>(value: &Value, number: &F) -> (r: String)
    requires
        writes_one_text(*number),
    ensures
        r@ == value_text(value@, shown_by(*number)),
{
    let mut out = String::new();
    push_value_text(&mut out, value, number);
    out
}

/// Appends `{:>2}` of `n`, for `0 < n`.
fn push_right_aligned2(out: &mut String, n: u64)
    requires
        0 < n,
    ensures
        final(out)@ == old(out)@ + right_aligned2(n as nat),
{
    proof {
        reveal_strlit(" ");
    }
    if n < 10 {
        out.push_str(" ");
        push_decimal(out, n);
        proof {
            assert(decimal(n as nat) == seq![crate::text::digit_char(n as nat)]);
            assert(" "@ =~= seq![' ']);
        }
    } else {
        push_decimal(out, n);
        proof {
            let q = (n / 10) as nat;
            assert(decimal(n as nat) == decimal(q).push(crate::text::digit_char((n % 10) as nat)));
            if q < 10 {
                assert(decimal(q) == seq![crate::text::digit_char(q)]);
            } else {
                assert(decimal(q) == decimal(q / 10).push(crate::text::digit_char(q % 10)));
            }
        }
    }
}

fn push_properties_text<F: Fn(u64) -> String>(out: &mut String, properties: &Vec<crate::document::Property>, show: &F)
    requires
        writes_one_text(*show),
    ensures
        final(out)@ == old(out)@ + properties_text(properties_model_of(properties@), shown_by(*show), 0),
{
    let ghost sh = shown_by(*show);
    let ghost ps = properties_model_of(properties@);
    let ghost line = out@;
    let mut k: usize = 0;
    while k < properties.len()
        invariant
            writes_one_text(*show),
            sh == shown_by(*show),
            k <= properties@.len(),
            ps == properties_model_of(properties@),
            out@ + properties_text(ps, sh, k as int) == line + properties_text(ps, sh, 0),
        decreases properties@.len() - k,
    {
        let ghost at = out@;
        let property = &properties[k];
        out.push_str("      ");
        out.push_str(property.key.as_str());
        out.push_str(" = ");
        push_value_text(out, &property.value, show);
        out.push_str("\n");
        proof {
            assert(ps[k as int] == property@);
            assert(out@ + properties_text(ps, sh, k + 1) =~= at + properties_text(ps, sh, k as int));
        }
        k = k + 1;
    }
    proof {
        assert(out@ =~= line + properties_text(ps, sh, 0));
    }
}

fn push_statement_text<F: Fn(u64) -> String>(out: &mut String, statement: &AdfStatement, number: u64, show: &F)
    requires
        writes_one_text(*show),
        0 < number,
    ensures
        final(out)@ == old(out)@ + statement_text(statement@, number as nat, shown_by(*show)),
{
    let ghost before = out@;
    out.push_str("  ");
    push_right_aligned2(out, number);
    match statement {
        AdfStatement::MaterialImport(import) => {
            out.push_str(". material import ");
            match &import.alias {
                Some(alias) => {
                    out.push_str(alias.as_str());
                    out.push_str(" ");
                },
                None => {},
            }
            out.push_str("from ");
            let quoted = debug_quoted(import.path.as_str());
            out.push_str(quoted.as_str());
            out.push_str("\n");
            proof {
                assert(out@ =~= before + statement_text(statement@, number as nat, shown_by(*show)));
            }
        },
        AdfStatement::Edit(edit) => {
            out.push_str(". ");
            out.push_str(edit.operation.debug_name());
            out.push_str(" ");
            out.push_str(edit.primitive.as_str());
            out.push_str("\n");
            push_properties_text(out, &edit.properties, show);
            proof {
                assert(out@ =~= before + statement_text(statement@, number as nat, shown_by(*show)));
            }
        },
    }
}

/// Writes a document as text for people to read: `ADF v<version>`, then
/// each statement on a line numbered from 1 (`   1. material import body
/// from "body.amat"`, `   2. Union sphere`), each of an edit's properties on
/// a line below it (`      radius = 1`). `number` writes a number, given
/// the bits of its binary64 value.
pub fn describe<F: Fn(u64) -> String>(document: &AdfDocument, number: &F) -> (r: String)
    requires
        writes_one_text(*number),
    ensures
        r@ == document_text(document@, shown_by(*number)),
{
    let ghost sh = shown_by(*number);
    let ghost ss = statements_model_of(document.statements@);
    let mut out = String::new();
    out.push_str("ADF v");
    push_decimal(&mut out, document.version as u64);
    out.push_str("\n");
    let ghost head = out@;
    let mut i: usize = 0;
    while i < document.statements.len()
        invariant
            writes_one_text(*number),
            sh == shown_by(*number),
            i <= document.statements@.len(),
            ss == statements_model_of(document.statements@),
            out@ + statements_text(ss, sh, i as int) == head + statements_text(ss, sh, 0),
        decreases document.statements@.len() - i,
    {
        let ghost before = out@;
        push_statement_text(&mut out, &document.statements[i], (i + 1) as u64, number);
        proof {
            assert(ss[i as int] == document.statements@[i as int]@);
            assert(out@ + statements_text(ss, sh, i + 1) =~= before + statements_text(
                ss,
                sh,
                i as int,
            ));
        }
        i = i + 1;
    }
    proof {
        assert(out@ =~= head + statements_text(ss, sh, 0));
    }
    out
}

} // verus!
