//! The ADF document: statements that import materials and edit a scene with
//! primitives, and the mathematical model that contracts speak of.

use vstd::prelude::*;

verus! {

/// `std::str::Utf8Error`, carried through as the cause of a rejected text.
#[verifier::external_type_specification]
#[verifier::external_body]
pub struct ExUtf8Error(std::str::Utf8Error);

/// `std::io::Error`, carried through as the cause of a failed file read.
#[verifier::external_type_specification]
#[verifier::external_body]
pub struct ExIoError(std::io::Error);

/// How an ADF document is stored.
#[derive(Debug, Clone, Copy, PartialEq, Eq, Structural)]
pub enum AdfEncoding {
    /// The text form (`ADFT`).
    Text,
    /// The binary form (`ADFB`).
    Binary,
}

impl AdfEncoding {
    /// The four-letter name of the encoding.
    pub fn name(&self) -> (r: &'static str)
        ensures
            r@ == encoding_name(*self),
    {
        match self {
            AdfEncoding::Text => "ADFT",
            AdfEncoding::Binary => "ADFB",
        }
    }
}

/// The four-letter name of an encoding.
pub open spec fn encoding_name(e: AdfEncoding) -> Seq<char> {
    match e {
        AdfEncoding::Text => "ADFT"@,
        AdfEncoding::Binary => "ADFB"@,
    }
}

/// What a check of a document reports: its version and how many statements
/// of each kind it holds.
#[derive(Debug, Clone, Copy, PartialEq, Eq, Structural)]
pub struct AdfCheckSummary {
    pub version: u32,
    pub material_imports: usize,
    pub edits: usize,
}

/// A parsed document: a version and its statements in order.
#[derive(Debug, PartialEq)]
pub struct AdfDocument {
    pub version: u32,
    pub statements: Vec<AdfStatement>,
}

/// One statement of a document.
#[derive(Debug, PartialEq)]
pub enum AdfStatement {
    MaterialImport(MaterialImport),
    Edit(Edit),
}

/// `use material <alias> from "<path>";` or `@material "<path>";`.
#[derive(Debug, Clone, PartialEq)]
pub struct MaterialImport {
    pub alias: Option<String>,
    pub path: String,
    pub syntax: MaterialImportSyntax,
}

/// Which of the two import forms a material import was written in.
#[derive(Debug, Clone, Copy, PartialEq, Eq, Structural)]
pub enum MaterialImportSyntax {
    Use,
    LegacyAtMaterial,
}

/// An edit: an operation applied with a primitive and its properties.
#[derive(Debug, PartialEq)]
pub struct Edit {
    pub operation: Operation,
    pub primitive: String,
    pub properties: Vec<Property>,
}

/// The operation of an edit: `+`, `-`, `^` or `?`.
#[derive(Debug, Clone, Copy, PartialEq, Eq, Structural)]
pub enum Operation {
    Union,
    Difference,
    Intersection,
    Paint,
}

impl Operation {
    /// The name of the operation's variant, as `{:?}` writes it.
    pub fn debug_name(&self) -> (r: &'static str)
        ensures
            r@ == operation_debug(*self),
    {
        match self {
            Operation::Union => "Union",
            Operation::Difference => "Difference",
            Operation::Intersection => "Intersection",
            Operation::Paint => "Paint",
        }
    }

    /// The lower-case name of the operation.
    pub fn name(&self) -> (r: &'static str)
        ensures
            r@ == operation_name(*self),
    {
        match self {
            Operation::Union => "union",
            Operation::Difference => "difference",
            Operation::Intersection => "intersection",
            Operation::Paint => "paint",
        }
    }
}

/// What `{:?}` writes for an operation: its variant's name.
pub open spec fn operation_debug(op: Operation) -> Seq<char> {
    match op {
        Operation::Union => "Union"@,
        Operation::Difference => "Difference"@,
        Operation::Intersection => "Intersection"@,
        Operation::Paint => "Paint"@,
    }
}

/// The lower-case name of an operation.
pub open spec fn operation_name(op: Operation) -> Seq<char> {
    match op {
        Operation::Union => "union"@,
        Operation::Difference => "difference"@,
        Operation::Intersection => "intersection"@,
        Operation::Paint => "paint"@,
    }
}

/// A `key: value` pair of an edit.
#[derive(Debug, PartialEq)]
pub struct Property {
    pub key: String,
    pub value: Value,
}

/// A property value. A number is held as the bit pattern of its IEEE 754
/// binary64 value; `==` compares numbers as binary64 values do.
#[derive(Debug)]
pub enum Value {
    Number(u64),
    String(String),
    Ident(String),
    Bool(bool),
    Vector(Vec<Value>),
}

/// Why reading or writing a document failed.
#[derive(Debug)]
pub enum AdfError {
    ReadFile { path: String, source: std::io::Error },
    Utf8(std::str::Utf8Error),
    Parse(String),
    Binary(String),
}

/// The model of a value.
pub enum ValueModel {
    Number(u64),
    Str(Seq<char>),
    Ident(Seq<char>),
    Bool(bool),
    Vector(Seq<ValueModel>),
}

/// The model of a property.
pub struct PropertyModel {
    pub key: Seq<char>,
    pub value: ValueModel,
}

/// The model of an edit.
pub struct EditModel {
    pub operation: Operation,
    pub primitive: Seq<char>,
    pub properties: Seq<PropertyModel>,
}

/// The model of a material import.
pub struct ImportModel {
    pub alias: Option<Seq<char>>,
    pub path: Seq<char>,
    pub syntax: MaterialImportSyntax,
}

/// The model of a statement.
pub enum StatementModel {
    MaterialImport(ImportModel),
    Edit(EditModel),
}

/// The model of a document.
pub struct DocumentModel {
    pub version: u32,
    pub statements: Seq<StatementModel>,
}

/// The model of an error: its kind and, where it has one, its message.
pub enum ErrorModel {
    ReadFile(Seq<char>),
    Utf8,
    Parse(Seq<char>),
    Binary(Seq<char>),
}

/// The model of a value: texts by their characters, a vector item by item.
pub open spec fn value_model(v: Value) -> ValueModel
    decreases v,
{
    match v {
        Value::Number(n) => ValueModel::Number(n),
        Value::String(s) => ValueModel::Str(s@),
        Value::Ident(s) => ValueModel::Ident(s@),
        Value::Bool(b) => ValueModel::Bool(b),
        Value::Vector(vs) => ValueModel::Vector(
            Seq::new(
                vs@.len(),
                |i: int|
                    if 0 <= i < vs@.len() {
                        value_model(vs@[i])
                    } else {
                        ValueModel::Bool(false)
                    },
            ),
        ),
    }
}

/// The models of a sequence of values.
pub open spec fn values_model_of(vs: Seq<Value>) -> Seq<ValueModel> {
    vs.map_values(|v: Value| v@)
}

/// The models of a sequence of properties.
pub open spec fn properties_model_of(ps: Seq<Property>) -> Seq<PropertyModel> {
    ps.map_values(|p: Property| p@)
}

/// The models of a sequence of statements.
pub open spec fn statements_model_of(ss: Seq<AdfStatement>) -> Seq<StatementModel> {
    ss.map_values(|s: AdfStatement| s@)
}

/// The model of a vector value holds the models of its items.
pub proof fn lemma_vector_model(vs: Vec<Value>)
    ensures
        Value::Vector(vs)@ == ValueModel::Vector(values_model_of(vs@)),
{
    let m = value_model(Value::Vector(vs));
    assert(m is Vector);
    let items = m->Vector_0;
    assert(items.len() == vs@.len());
    assert forall|i: int| 0 <= i < vs@.len() implies items[i] == values_model_of(vs@)[i] by {}
    assert(items =~= values_model_of(vs@));
}

impl View for Value {
    type V = ValueModel;

    open spec fn view(&self) -> ValueModel {
        value_model(*self)
    }
}

/// Whether the bits are those of a NaN: every exponent bit set, and a
/// mantissa that is not zero.
pub open spec fn is_nan_bits(x: u64) -> bool {
    (x / 0x10_0000_0000_0000) % 2048 == 2047 && x % 0x10_0000_0000_0000 != 0
}

/// Whether the bits are those of `+0` or `-0`.
pub open spec fn is_zero_bits(x: u64) -> bool {
    x % 0x8000_0000_0000_0000 == 0
}

/// `==` on the binary64 values with these bits: a NaN equals nothing, the
/// two zeros are equal, and any other two values are equal exactly when
/// their bits are.
pub open spec fn number_eq(x: u64, y: u64) -> bool {
    !is_nan_bits(x) && !is_nan_bits(y) && (x == y || (is_zero_bits(x) && is_zero_bits(y)))
}

/// `==` on values: numbers as binary64 values, everything else by content,
/// vectors item by item.
pub open spec fn model_eq(a: ValueModel, b: ValueModel) -> bool
    decreases a, 0int,
{
    match (a, b) {
        (ValueModel::Number(x), ValueModel::Number(y)) => number_eq(x, y),
        (ValueModel::Str(x), ValueModel::Str(y)) => x == y,
        (ValueModel::Ident(x), ValueModel::Ident(y)) => x == y,
        (ValueModel::Bool(x), ValueModel::Bool(y)) => x == y,
        (ValueModel::Vector(xs), ValueModel::Vector(ys)) => xs.len() == ys.len() && items_eq(
            xs,
            ys,
            0,
        ),
        _ => false,
    }
}

/// Whether the items from `i` on are equal, pair by pair.
pub open spec fn items_eq(xs: Seq<ValueModel>, ys: Seq<ValueModel>, i: int) -> bool
    decreases xs, xs.len() - i,
{
    if i < 0 || i >= xs.len() {
        true
    } else {
        model_eq(xs[i], ys[i]) && items_eq(xs, ys, i + 1)
    }
}

fn numbers_equal(x: u64, y: u64) -> (r: bool)
    ensures
        r == number_eq(x, y),
{
    let nan_x = (x / 0x10_0000_0000_0000) % 2048 == 2047 && x % 0x10_0000_0000_0000 != 0;
    let nan_y = (y / 0x10_0000_0000_0000) % 2048 == 2047 && y % 0x10_0000_0000_0000 != 0;
    !nan_x && !nan_y && (x == y || (x % 0x8000_0000_0000_0000 == 0 && y % 0x8000_0000_0000_0000
        == 0))
}

fn values_equal(a: &Value, b: &Value) -> (r: bool)
    ensures
        r == model_eq(a@, b@),
    decreases a,
{
    match (a, b) {
        (Value::Number(x), Value::Number(y)) => numbers_equal(*x, *y),
        (Value::String(x), Value::String(y)) => crate::text::str_eq(x.as_str(), y.as_str()),
        (Value::Ident(x), Value::Ident(y)) => crate::text::str_eq(x.as_str(), y.as_str()),
        (Value::Bool(x), Value::Bool(y)) => *x == *y,
        (Value::Vector(xs), Value::Vector(ys)) => {
            let ghost xm = a@->Vector_0;
            let ghost ym = b@->Vector_0;
            if xs.len() != ys.len() {
                return false;
            }
            let mut i: usize = 0;
            while i < xs.len()
                invariant
                    xs@.len() == ys@.len(),
                    i <= xs@.len(),
                    xm.len() == xs@.len(),
                    ym.len() == ys@.len(),
                    forall|j: int| 0 <= j < xs@.len() ==> xm[j] == (#[trigger] xs@[j])@,
                    forall|j: int| 0 <= j < ys@.len() ==> ym[j] == (#[trigger] ys@[j])@,
                    items_eq(xm, ym, 0) == items_eq(xm, ym, i as int),
                    *a == Value::Vector(*xs),
                    a@ == ValueModel::Vector(xm),
                    b@ == ValueModel::Vector(ym),
                decreases xs@.len() - i,
            {
                proof {
                    assert(decreases_to!(*a => *xs));
                    assert(decreases_to!(*xs => xs@));
                    assert(decreases_to!(xs@ => xs@[i as int]));
                }
                if !values_equal(&xs[i], &ys[i]) {
                    return false;
                }
                i = i + 1;
            }
            true
        },
        _ => false,
    }
}

impl PartialEq for Value {
    fn eq(&self, other: &Self) -> (r: bool) {
        values_equal(self, other)
    }
}

impl vstd::std_specs::cmp::PartialEqSpecImpl for Value {
    open spec fn obeys_eq_spec() -> bool {
        true
    }

    open spec fn eq_spec(&self, other: &Self) -> bool {
        model_eq(self@, other@)
    }
}

impl View for Property {
    type V = PropertyModel;

    open spec fn view(&self) -> PropertyModel {
        PropertyModel { key: self.key@, value: self.value@ }
    }
}

impl View for Edit {
    type V = EditModel;

    open spec fn view(&self) -> EditModel {
        EditModel {
            operation: self.operation,
            primitive: self.primitive@,
            properties: properties_model_of(self.properties@),
        }
    }
}

/// The model of an import's alias.
pub open spec fn alias_model(a: Option<String>) -> Option<Seq<char>> {
    match a {
        Some(s) => Some(s@),
        None => None,
    }
}

impl View for MaterialImport {
    type V = ImportModel;

    open spec fn view(&self) -> ImportModel {
        ImportModel { alias: alias_model(self.alias), path: self.path@, syntax: self.syntax }
    }
}

impl View for AdfStatement {
    type V = StatementModel;

    open spec fn view(&self) -> StatementModel {
        match self {
            AdfStatement::MaterialImport(i) => StatementModel::MaterialImport(i@),
            AdfStatement::Edit(e) => StatementModel::Edit(e@),
        }
    }
}

impl View for AdfDocument {
    type V = DocumentModel;

    open spec fn view(&self) -> DocumentModel {
        DocumentModel {
            version: self.version,
            statements: statements_model_of(self.statements@),
        }
    }
}

impl View for AdfError {
    type V = ErrorModel;

    open spec fn view(&self) -> ErrorModel {
        match self {
            AdfError::ReadFile { path, .. } => ErrorModel::ReadFile(path@),
            AdfError::Utf8(_) => ErrorModel::Utf8,
            AdfError::Parse(m) => ErrorModel::Parse(m@),
            AdfError::Binary(m) => ErrorModel::Binary(m@),
        }
    }
}

/// `Display` of `std::str::Utf8Error`: where the bytes stop being UTF-8.
/// What the text says is left unsaid here.
#[verifier::external_body]
fn utf8_error_text(e: &std::str::Utf8Error) -> String {
    e.to_string()
}

/// `Display` of `std::io::Error`: the cause of a failed read, as the system
/// words it. What the text says is left unsaid here.
#[verifier::external_body]
pub(crate) fn io_error_text(e: &std::io::Error) -> String {
    e.to_string()
}

impl AdfError {
    /// The message of the error: the parse or binary message itself, or a
    /// sentence that names the failed read or the bad UTF-8 and then gives
    /// the cause's own words.
    pub fn to_string(&self) -> (r: String)
        ensures
            match self {
                AdfError::Parse(m) => r@ == m@,
                AdfError::Binary(m) => r@ == m@,
                AdfError::Utf8(_) => exists|t: Seq<char>| r@ == "ADF text is not valid UTF-8: "@ + t,
                AdfError::ReadFile { path, .. } => exists|t: Seq<char>|
                    r@ == "could not read "@ + path@ + ": "@ + t,
            },
    {
        match self {
            AdfError::Parse(m) => m.clone(),
            AdfError::Binary(m) => m.clone(),
            AdfError::Utf8(e) => {
                let mut s = String::new();
                s.push_str("ADF text is not valid UTF-8: ");
                let cause = utf8_error_text(e);
                s.push_str(cause.as_str());
                s
            },
            AdfError::ReadFile { path, source } => {
                let mut s = String::new();
                s.push_str("could not read ");
                s.push_str(path.as_str());
                s.push_str(": ");
                let cause = io_error_text(source);
                s.push_str(cause.as_str());
                s
            },
        }
    }
}

/// How many statements of a document are material imports.
pub open spec fn import_count(statements: Seq<StatementModel>) -> nat
    decreases statements.len(),
{
    if statements.len() == 0 {
        0
    } else {
        import_count(statements.drop_last()) + if statements.last() is MaterialImport {
            1nat
        } else {
            0nat
        }
    }
}

/// How many statements of a document are edits.
pub open spec fn edit_count(statements: Seq<StatementModel>) -> nat
    decreases statements.len(),
{
    if statements.len() == 0 {
        0
    } else {
        edit_count(statements.drop_last()) + if statements.last() is Edit {
            1nat
        } else {
            0nat
        }
    }
}

/// Whether a summary reports a document exactly.
pub open spec fn summarizes(summary: AdfCheckSummary, doc: DocumentModel) -> bool {
    &&& summary.version == doc.version
    &&& summary.material_imports == import_count(doc.statements)
    &&& summary.edits == edit_count(doc.statements)
}

/// Whether a read returned what the model says, and left the reader at the
/// position that the model says.
pub open spec fn reads<T: View>(r: Result<T, AdfError>, at: usize, expect: Result<(T::V, int), ErrorModel>) -> bool {
    match expect {
        Ok((v, q)) => r matches Ok(x) && x@ == v && at == q,
        Err(e) => r matches Err(x) && x@ == e,
    }
}

/// Whether a skip succeeded exactly when the model says, and left the reader
/// at the position that the model says.
pub open spec fn skips(r: Result<(), AdfError>, at: usize, expect: Result<int, ErrorModel>) -> bool {
    match expect {
        Ok(q) => r is Ok && at == q,
        Err(e) => r matches Err(x) && x@ == e,
    }
}

/// Whether a result is what the model says, value or error.
pub open spec fn result_is<T: View>(r: Result<T, AdfError>, expect: Result<T::V, ErrorModel>) -> bool {
    match expect {
        Ok(v) => r matches Ok(x) && x@ == v,
        Err(e) => r matches Err(x) && x@ == e,
    }
}

} // verus!
