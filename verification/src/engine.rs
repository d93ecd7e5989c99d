//! The conversion engine: decoding a structured value tree into a record
//! under a schema, and encoding a record back into a tree. The spec
//! functions here are the authoritative statement of both directions; the
//! executable functions are proved to return exactly what they say.
use crate::numeric::{dec_str, int_to_decimal, parse_i64, spec_parse_i64};
use crate::schema::{
    empty_value, record_model, resolve_read, DecodeConverter, EncodeConverter, FieldSpec,
    FieldSpecModel, FieldType, FieldValue, FieldValueModel, RecordSchema, spec_empty_value,
};
use crate::value::{entries_model, kind_of, lemma_mapping_view, StructuredValue, ValModel, ValueKind};
use vstd::prelude::*;

verus! {

/// Why a custom decode converter rejected a value.
#[derive(Clone, Copy, Debug, PartialEq, Eq, Structural)]
pub enum ConvertCause {
    /// The text did not parse as a 64-bit integer.
    ParseFailed,
    /// The value's shape is not one the converter accepts.
    ShapeUnsupported,
}

/// Why a decode failed. Every variant is recoverable and reportable; the
/// engine never substitutes a guessed value for malformed input.
#[derive(Debug, PartialEq)]
pub enum ConversionError {
    /// The input tree was not a mapping.
    NotAnObject,
    /// No read name was present, and the field has neither a default nor
    /// the optional marker.
    MissingField { field: String },
    /// A present value had the wrong shape for the field's declared type.
    TypeMismatch { field: String, expected: FieldType, found: ValueKind },
    /// A custom decode converter rejected the present value.
    FieldConversion { field: String, cause: ConvertCause },
}

/// Mathematical model of a decode error.
pub enum ErrorModel {
    NotAnObject,
    MissingField { field: Seq<char> },
    TypeMismatch { field: Seq<char>, expected: FieldType, found: ValueKind },
    FieldConversion { field: Seq<char>, cause: ConvertCause },
}

impl View for ConversionError {
    type V = ErrorModel;

    open spec fn view(&self) -> ErrorModel {
        match self {
            ConversionError::NotAnObject => ErrorModel::NotAnObject,
            ConversionError::MissingField { field } => ErrorModel::MissingField {
                field: field@,
            },
            ConversionError::TypeMismatch { field, expected, found } => ErrorModel::TypeMismatch {
                field: field@,
                expected: *expected,
                found: *found,
            },
            ConversionError::FieldConversion { field, cause } => ErrorModel::FieldConversion {
                field: field@,
                cause: *cause,
            },
        }
    }
}

/// Naive coercion of a present value to the field's declared type:
/// number, text and truth value pass through; every other pairing is a
/// type mismatch.
pub open spec fn spec_coerce(field: Seq<char>, t: FieldType, v: ValModel) -> Result<
    FieldValueModel,
    ErrorModel,
> {
    match t {
        FieldType::Int => match v {
            ValModel::Number(n) => Ok(FieldValueModel::Int(n)),
            _ => Err(ErrorModel::TypeMismatch { field, expected: t, found: kind_of(v) }),
        },
        FieldType::Text => match v {
            ValModel::Text(s) => Ok(FieldValueModel::Text(s)),
            _ => Err(ErrorModel::TypeMismatch { field, expected: t, found: kind_of(v) }),
        },
        FieldType::Flag => match v {
            ValModel::Bool(b) => Ok(FieldValueModel::Flag(b)),
            _ => Err(ErrorModel::TypeMismatch { field, expected: t, found: kind_of(v) }),
        },
    }
}

/// What a custom decode converter yields: decimal text and numbers become
/// integers; everything else is an explicit error, never a silent zero.
pub open spec fn spec_convert_decode(c: DecodeConverter, field: Seq<char>, v: ValModel) -> Result<
    FieldValueModel,
    ErrorModel,
> {
    match c {
        DecodeConverter::IntFromText => match v {
            ValModel::Text(s) => match spec_parse_i64(s) {
                Some(n) => Ok(FieldValueModel::Int(n)),
                None => Err(
                    ErrorModel::FieldConversion { field, cause: ConvertCause::ParseFailed },
                ),
            },
            ValModel::Number(n) => Ok(FieldValueModel::Int(n)),
            _ => Err(
                ErrorModel::FieldConversion { field, cause: ConvertCause::ShapeUnsupported },
            ),
        },
    }
}

/// Decoding one field: the first present read name's value goes through
/// the custom converter or naive coercion; a missing value falls back to
/// the default, then to the empty value for optional fields, and is
/// otherwise an error.
pub open spec fn spec_decode_field(f: FieldSpecModel, entries: Seq<(Seq<char>, ValModel)>) -> Result<
    FieldValueModel,
    ErrorModel,
> {
    match resolve_read(f.read_names, entries) {
        Some(v) => match f.decode_converter {
            Some(c) => spec_convert_decode(c, f.field_name, v),
            None => spec_coerce(f.field_name, f.field_type, v),
        },
        None => match f.default_value {
            Some(d) => Ok(d),
            None => if f.optional {
                Ok(spec_empty_value(f.field_type))
            } else {
                Err(ErrorModel::MissingField { field: f.field_name })
            },
        },
    }
}

/// Decoding a list of fields in declaration order; the first field that
/// fails decides the error.
pub open spec fn spec_decode_fields(
    fields: Seq<FieldSpecModel>,
    entries: Seq<(Seq<char>, ValModel)>,
) -> Result<Seq<FieldValueModel>, ErrorModel>
    decreases fields.len(),
{
    if fields.len() == 0 {
        Ok(Seq::empty())
    } else {
        match spec_decode_fields(fields.drop_last(), entries) {
            Err(e) => Err(e),
            Ok(rest) => match spec_decode_field(fields.last(), entries) {
                Ok(v) => Ok(rest.push(v)),
                Err(e) => Err(e),
            },
        }
    }
}

/// Decoding a whole input: the input must be a mapping; its entries are
/// decoded field by field.
pub open spec fn spec_decode(schema: Seq<FieldSpecModel>, input: ValModel) -> Result<
    Seq<FieldValueModel>,
    ErrorModel,
> {
    match input {
        ValModel::Mapping(entries) => spec_decode_fields(schema, entries),
        _ => Err(ErrorModel::NotAnObject),
    }
}

/// Naive projection of a field value into the tree.
pub open spec fn spec_project(v: FieldValueModel) -> ValModel {
    match v {
        FieldValueModel::Int(n) => ValModel::Number(n),
        FieldValueModel::Text(s) => ValModel::Text(s),
        FieldValueModel::Flag(b) => ValModel::Bool(b),
    }
}

/// Encoding one field: the custom converter renders an integer as decimal
/// text; otherwise the value is projected naively.
pub open spec fn spec_encode_field(f: FieldSpecModel, v: FieldValueModel) -> ValModel {
    match f.encode_converter {
        Some(EncodeConverter::IntToText) => match v {
            FieldValueModel::Int(n) => ValModel::Text(dec_str(n as int)),
            _ => spec_project(v),
        },
        None => spec_project(v),
    }
}

/// Encoding a record: a mapping with one entry per field, in declaration
/// order, under each field's write name.
pub open spec fn spec_encode(schema: Seq<FieldSpecModel>, r: Seq<FieldValueModel>) -> ValModel {
    ValModel::Mapping(
        Seq::new(
            schema.len(),
            |i: int| (schema[i].write_name, spec_encode_field(schema[i], r[i])),
        ),
    )
}

/// Model of a per-field decode result.
pub open spec fn field_result_model(r: Result<FieldValue, ConversionError>) -> Result<
    FieldValueModel,
    ErrorModel,
> {
    match r {
        Ok(v) => Ok(v@),
        Err(e) => Err(e@),
    }
}

/// Model of a whole-record decode result.
pub open spec fn decode_result_model(r: Result<Vec<FieldValue>, ConversionError>) -> Result<
    Seq<FieldValueModel>,
    ErrorModel,
> {
    match r {
        Ok(v) => Ok(record_model(v@)),
        Err(e) => Err(e@),
    }
}

/// Applies a custom decode converter to a present value.
fn convert_decode(c: DecodeConverter, field: &String, v: &StructuredValue) -> (r: Result<
    FieldValue,
    ConversionError,
>)
    ensures
        field_result_model(r) == spec_convert_decode(c, field@, v@),
{
    match c {
        DecodeConverter::IntFromText => match v {
            StructuredValue::Text(s) => match parse_i64(s.as_str()) {
                Some(n) => Ok(FieldValue::Int(n)),
                None => Err(
                    ConversionError::FieldConversion {
                        field: field.clone(),
                        cause: ConvertCause::ParseFailed,
                    },
                ),
            },
            StructuredValue::Number(n) => Ok(FieldValue::Int(*n)),
            _ => Err(
                ConversionError::FieldConversion {
                    field: field.clone(),
                    cause: ConvertCause::ShapeUnsupported,
                },
            ),
        },
    }
}

/// Applies naive coercion to a present value.
fn naive_coerce(field: &String, t: FieldType, v: &StructuredValue) -> (r: Result<
    FieldValue,
    ConversionError,
>)
    ensures
        field_result_model(r) == spec_coerce(field@, t, v@),
{
    match t {
        FieldType::Int => match v {
            StructuredValue::Number(n) => Ok(FieldValue::Int(*n)),
            _ => Err(
                ConversionError::TypeMismatch {
                    field: field.clone(),
                    expected: t,
                    found: v.kind(),
                },
            ),
        },
        FieldType::Text => match v {
            StructuredValue::Text(s) => Ok(FieldValue::Text(s.clone())),
            _ => Err(
                ConversionError::TypeMismatch {
                    field: field.clone(),
                    expected: t,
                    found: v.kind(),
                },
            ),
        },
        FieldType::Flag => match v {
            StructuredValue::Bool(b) => Ok(FieldValue::Flag(*b)),
            _ => Err(
                ConversionError::TypeMismatch {
                    field: field.clone(),
                    expected: t,
                    found: v.kind(),
                },
            ),
        },
    }
}

/// Decodes one field from the input mapping's entries.
fn decode_field(f: &FieldSpec, entries: &Vec<(String, StructuredValue)>) -> (r: Result<
    FieldValue,
    ConversionError,
>)
    ensures
        field_result_model(r) == spec_decode_field(f@, entries_model(entries@)),
{
    match f.resolve_read_name(entries) {
        Some(v) => match f.decode_converter {
            Some(c) => convert_decode(c, &f.field_name, v),
            None => naive_coerce(&f.field_name, f.field_type, v),
        },
        None => match f.resolve_default() {
            Some(d) => Ok(d),
            None => if f.optional {
                Ok(empty_value(f.field_type))
            } else {
                Err(ConversionError::MissingField { field: f.field_name.clone() })
            },
        },
    }
}

/// An error in a decoded prefix decides the result of every longer
/// prefix.
proof fn lemma_decode_fields_err_extends(
    fields: Seq<FieldSpecModel>,
    entries: Seq<(Seq<char>, ValModel)>,
    i: int,
    j: int,
)
    requires
        0 <= i <= j <= fields.len(),
        spec_decode_fields(fields.take(i), entries) is Err,
    ensures
        spec_decode_fields(fields.take(j), entries) == spec_decode_fields(
            fields.take(i),
            entries,
        ),
    decreases j - i,
{
    if i < j {
        assert(fields.take(i + 1).drop_last() =~= fields.take(i));
        lemma_decode_fields_err_extends(fields, entries, i + 1, j);
    }
}

/// Decodes a structured value into a record under the given schema. The
/// input must be a mapping; each schema field is resolved, converted or
/// defaulted in declaration order, and the first failure decides the
/// error. The result is exactly what `spec_decode` says.
#[verifier::loop_isolation(false)]
pub fn decode(schema: &RecordSchema, input: &StructuredValue) -> (r: Result<
    Vec<FieldValue>,
    ConversionError,
>)
    ensures
        decode_result_model(r) == spec_decode(schema@, input@),
{
    let entries = match input {
        StructuredValue::Mapping(entries) => entries,
        _ => {
            return Err(ConversionError::NotAnObject);
        },
    };
    proof {
        lemma_mapping_view(*input);
    }
    let ghost em = entries_model(entries@);
    let n = schema.fields.len();
    let mut out: Vec<FieldValue> = Vec::new();
    proof {
        assert(schema@.take(0) =~= Seq::<FieldSpecModel>::empty());
        assert(record_model(out@) =~= Seq::<FieldValueModel>::empty());
    }
    let mut i: usize = 0;
    while i < n
        invariant
            0 <= i <= n,
            n == schema.fields.len(),
            out@.len() == i,
            spec_decode_fields(schema@.take(i as int), em) == Ok::<_, ErrorModel>(record_model(out@)),
        decreases n - i,
    {
        let ghost old_out = out@;
        match decode_field(&schema.fields[i], entries) {
            Ok(v) => {
                out.push(v);
                proof {
                    assert(schema@.take(i + 1).drop_last() =~= schema@.take(i as int));
                    assert(schema@.take(i + 1).last() == schema@[i as int]);
                    assert(schema@[i as int] == schema.fields@[i as int]@);
                    assert(record_model(out@) =~= record_model(old_out).push(v@));
                }
            },
            Err(e) => {
                proof {
                    assert(schema@.take(i + 1).drop_last() =~= schema@.take(i as int));
                    assert(schema@.take(i + 1).last() == schema@[i as int]);
                    assert(schema@[i as int] == schema.fields@[i as int]@);
                    assert(spec_decode_fields(schema@.take(i + 1), em) == Err::<Seq<FieldValueModel>, _>(e@));
                    lemma_decode_fields_err_extends(schema@, em, i + 1, n as int);
                    assert(schema@.take(n as int) =~= schema@);
                }
                return Err(e);
            },
        }
        i += 1;
    }
    proof {
        assert(schema@.take(n as int) =~= schema@);
    }
    Ok(out)
}

/// Projects a field value into the tree with no custom conversion.
fn project_value(v: &FieldValue) -> (r: StructuredValue)
    ensures
        r@ == spec_project(v@),
{
    match v {
        FieldValue::Int(n) => StructuredValue::Number(*n),
        FieldValue::Text(s) => StructuredValue::Text(s.clone()),
        FieldValue::Flag(b) => StructuredValue::Bool(*b),
    }
}

/// Encodes one field value, through the field's custom converter if one
/// is set.
fn encode_field(f: &FieldSpec, v: &FieldValue) -> (r: StructuredValue)
    ensures
        r@ == spec_encode_field(f@, v@),
{
    match f.encode_converter {
        Some(EncodeConverter::IntToText) => match v {
            FieldValue::Int(n) => StructuredValue::Text(int_to_decimal(*n)),
            _ => project_value(v),
        },
        None => project_value(v),
    }
}

/// Encodes a record into a mapping with one entry per schema field, in
/// declaration order, under each field's write name. Encoding cannot
/// fail; a record that does not pair with the schema is a programming
/// error to be caught by construction-time validation.
#[verifier::loop_isolation(false)]
pub fn encode(schema: &RecordSchema, record: &Vec<FieldValue>) -> (r: StructuredValue)
    requires
        record@.len() == schema@.len(),
    ensures
        r@ == spec_encode(schema@, record_model(record@)),
{
    let n = schema.fields.len();
    let mut entries: Vec<(String, StructuredValue)> = Vec::new();
    let mut i: usize = 0;
    while i < n
        invariant
            0 <= i <= n,
            n == schema.fields.len(),
            record@.len() == n,
            entries@.len() == i,
            forall|k: int|
                0 <= k < i ==> entries_model(entries@)[k] == (
                    schema@[k].write_name,
                    spec_encode_field(schema@[k], record_model(record@)[k]),
                ),
        decreases n - i,
    {
        let name = schema.fields[i].write_name.clone();
        let val = encode_field(&schema.fields[i], &record[i]);
        let ghost old_entries = entries@;
        entries.push((name, val));
        proof {
            assert(schema@[i as int] == schema.fields@[i as int]@);
            assert(record_model(record@)[i as int] == record@[i as int]@);
            assert(entries_model(entries@)[i as int] == (name@, val@));
            assert(name@ == schema@[i as int].write_name);
            assert(val@ == spec_encode_field(schema@[i as int], record_model(record@)[i as int]));
            assert forall|k: int|
                0 <= k < i + 1 implies entries_model(entries@)[k] == (
                schema@[k].write_name,
                spec_encode_field(schema@[k], record_model(record@)[k]),
            ) by {
                if k < i {
                    assert(entries_model(entries@)[k] == entries_model(old_entries)[k]);
                }
            }
        }
        i += 1;
    }
    let out = StructuredValue::Mapping(entries);
    proof {
        lemma_mapping_view(out);
        assert(out@->Mapping_0 =~= spec_encode(schema@, record_model(record@))->Mapping_0);
    }
    out
}

} // verus!
