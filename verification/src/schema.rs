//! The schema descriptor: per-field configuration for both conversion
//! directions (accepted read names, write name, default, optional custom
//! converters), plus the record value type that decode produces and
//! encode consumes.
use crate::value::{entries_model, lookup_entry, StructuredValue, ValModel};
use vstd::prelude::*;

verus! {

/// The declared semantic type of a record field.
#[derive(Clone, Copy, Debug, PartialEq, Eq, Structural)]
pub enum FieldType {
    Int,
    Text,
    Flag,
}

/// The closed set of custom decode converters a field may opt into.
#[derive(Clone, Copy, Debug, PartialEq, Eq, Structural)]
pub enum DecodeConverter {
    /// Accepts decimal text as well as a number for an integer field;
    /// any other shape is an error, never a silently substituted value.
    IntFromText,
}

/// The closed set of custom encode converters a field may opt into.
#[derive(Clone, Copy, Debug, PartialEq, Eq, Structural)]
pub enum EncodeConverter {
    /// Renders an integer field as its decimal text.
    IntToText,
}

/// One field's value inside a decoded record.
#[derive(Debug, PartialEq)]
pub enum FieldValue {
    Int(i64),
    Text(String),
    Flag(bool),
}

/// Mathematical model of a field value.
pub enum FieldValueModel {
    Int(i64),
    Text(Seq<char>),
    Flag(bool),
}

impl View for FieldValue {
    type V = FieldValueModel;

    open spec fn view(&self) -> FieldValueModel {
        match self {
            FieldValue::Int(n) => FieldValueModel::Int(*n),
            FieldValue::Text(s) => FieldValueModel::Text(s@),
            FieldValue::Flag(b) => FieldValueModel::Flag(*b),
        }
    }
}

impl FieldValue {
    /// An equal copy of this value.
    pub fn duplicate(&self) -> (r: FieldValue)
        ensures
            r == *self,
    {
        match self {
            FieldValue::Int(n) => FieldValue::Int(*n),
            FieldValue::Text(s) => FieldValue::Text(s.clone()),
            FieldValue::Flag(b) => FieldValue::Flag(*b),
        }
    }
}

/// Model of a record: one model value per field, in schema order.
pub open spec fn record_model(r: Seq<FieldValue>) -> Seq<FieldValueModel> {
    Seq::new(r.len(), |i: int| r[i]@)
}

/// Whether a value has the declared field type.
pub open spec fn value_matches_type(v: FieldValueModel, t: FieldType) -> bool {
    match v {
        FieldValueModel::Int(_) => t is Int,
        FieldValueModel::Text(_) => t is Text,
        FieldValueModel::Flag(_) => t is Flag,
    }
}

/// The empty value of a field type, used for optional fields with neither
/// a present value nor a default.
pub open spec fn spec_empty_value(t: FieldType) -> FieldValueModel {
    match t {
        FieldType::Int => FieldValueModel::Int(0),
        FieldType::Text => FieldValueModel::Text(Seq::empty()),
        FieldType::Flag => FieldValueModel::Flag(false),
    }
}

/// The empty value of a field type.
pub fn empty_value(t: FieldType) -> (r: FieldValue)
    ensures
        r@ == spec_empty_value(t),
{
    match t {
        FieldType::Int => FieldValue::Int(0),
        FieldType::Text => FieldValue::Text(String::new()),
        FieldType::Flag => FieldValue::Flag(false),
    }
}

/// Describes how one record field maps to and from named entries of a
/// structured value tree.
#[derive(Debug)]
pub struct FieldSpec {
    /// The record-side name of the field, used in error reports.
    pub field_name: String,
    /// External names accepted on decode, scanned in order; the first
    /// present one wins.
    pub read_names: Vec<String>,
    /// The external name used on encode.
    pub write_name: String,
    /// The declared semantic type, driving naive coercion and projection.
    pub field_type: FieldType,
    /// Whether a missing value without a default yields the type's empty
    /// value instead of an error.
    pub optional: bool,
    /// Fallback value used when no read name is present in the input.
    pub default_value: Option<FieldValue>,
    /// Custom conversion applied to a present value on decode.
    pub decode_converter: Option<DecodeConverter>,
    /// Custom conversion applied to the field value on encode.
    pub encode_converter: Option<EncodeConverter>,
}

/// Mathematical model of a field descriptor.
pub struct FieldSpecModel {
    pub field_name: Seq<char>,
    pub read_names: Seq<Seq<char>>,
    pub write_name: Seq<char>,
    pub field_type: FieldType,
    pub optional: bool,
    pub default_value: Option<FieldValueModel>,
    pub decode_converter: Option<DecodeConverter>,
    pub encode_converter: Option<EncodeConverter>,
}

impl View for FieldSpec {
    type V = FieldSpecModel;

    open spec fn view(&self) -> FieldSpecModel {
        FieldSpecModel {
            field_name: self.field_name@,
            read_names: Seq::new(self.read_names@.len(), |i: int| self.read_names@[i]@),
            write_name: self.write_name@,
            field_type: self.field_type,
            optional: self.optional,
            default_value: match self.default_value {
                Some(v) => Some(v@),
                None => None,
            },
            decode_converter: self.decode_converter,
            encode_converter: self.encode_converter,
        }
    }
}

/// First value among `names`, scanned in order, that is present in the
/// mapping.
pub open spec fn resolve_read(
    names: Seq<Seq<char>>,
    entries: Seq<(Seq<char>, ValModel)>,
) -> Option<ValModel>
    decreases names.len(),
{
    if names.len() == 0 {
        None
    } else {
        match lookup_entry(entries, names[0]) {
            Some(v) => Some(v),
            None => resolve_read(names.skip(1), entries),
        }
    }
}

/// If `k` is the first name with a hit, the scan returns that hit: the
/// first-listed alias wins whatever later names would yield.
pub proof fn lemma_resolve_read_hits_first(
    names: Seq<Seq<char>>,
    entries: Seq<(Seq<char>, ValModel)>,
    k: int,
)
    requires
        0 <= k < names.len(),
        lookup_entry(entries, names[k]) is Some,
        forall|j: int| 0 <= j < k ==> lookup_entry(entries, names[j]) is None,
    ensures
        resolve_read(names, entries) == lookup_entry(entries, names[k]),
    decreases k,
{
    if k > 0 {
        assert(forall|j: int| 0 <= j < names.skip(1).len() ==> names.skip(1)[j] == names[j + 1]);
        lemma_resolve_read_hits_first(names.skip(1), entries, k - 1);
    }
}

/// If no name has a hit, the scan yields `None`.
pub proof fn lemma_resolve_read_misses(names: Seq<Seq<char>>, entries: Seq<(Seq<char>, ValModel)>)
    requires
        forall|j: int| 0 <= j < names.len() ==> lookup_entry(entries, names[j]) is None,
    ensures
        resolve_read(names, entries) is None,
    decreases names.len(),
{
    if names.len() > 0 {
        assert(forall|j: int| 0 <= j < names.skip(1).len() ==> names.skip(1)[j] == names[j + 1]);
        lemma_resolve_read_misses(names.skip(1), entries);
    }
}

impl FieldSpec {
    /// Scans `read_names` in declared order and returns the first value
    /// present in the input mapping, or `None` if none is present.
    #[verifier::loop_isolation(false)]
    pub fn resolve_read_name<'a>(&self, entries: &'a Vec<(String, StructuredValue)>) -> (r: Option<
        &'a StructuredValue,
    >)
        ensures
            match r {
                Some(v) => resolve_read(self@.read_names, entries_model(entries@)) == Some(v@),
                None => resolve_read(self@.read_names, entries_model(entries@)) is None,
            },
    {
        let ghost names = self@.read_names;
        let ghost em = entries_model(entries@);
        let mut i: usize = 0;
        while i < self.read_names.len()
            invariant
                0 <= i <= self.read_names.len(),
                forall|j: int| 0 <= j < i ==> lookup_entry(em, names[j]) is None,
            decreases self.read_names.len() - i,
        {
            match crate::value::find_entry(entries, &self.read_names[i]) {
                Some(v) => {
                    proof {
                        lemma_resolve_read_hits_first(names, em, i as int);
                    }
                    return Some(v);
                },
                None => {},
            }
            i += 1;
        }
        proof {
            lemma_resolve_read_misses(names, em);
        }
        None
    }

    /// Returns the configured default value, if any.
    pub fn resolve_default(&self) -> (r: Option<FieldValue>)
        ensures
            match r {
                Some(v) => self@.default_value == Some(v@),
                None => self@.default_value is None,
            },
    {
        match &self.default_value {
            Some(v) => Some(v.duplicate()),
            None => None,
        }
    }
}

/// The ordered collection of field descriptors governing conversion for
/// one record type.
#[derive(Debug)]
pub struct RecordSchema {
    pub fields: Vec<FieldSpec>,
}

impl View for RecordSchema {
    type V = Seq<FieldSpecModel>;

    open spec fn view(&self) -> Seq<FieldSpecModel> {
        Seq::new(self.fields@.len(), |i: int| self.fields@[i]@)
    }
}

/// Well-formedness of a schema: write names are pairwise distinct, so
/// that encode produces a well-formed mapping.
pub open spec fn schema_wf(schema: Seq<FieldSpecModel>) -> bool {
    forall|i: int, j: int|
        0 <= i < j < schema.len() ==> schema[i].write_name != schema[j].write_name
}

/// Whether a record pairs with a schema: one value per field, each of the
/// field's declared type.
pub open spec fn record_matches(schema: Seq<FieldSpecModel>, r: Seq<FieldValueModel>) -> bool {
    &&& r.len() == schema.len()
    &&& forall|i: int| 0 <= i < r.len() ==> value_matches_type(r[i], schema[i].field_type)
}

impl RecordSchema {
    /// Construction-time validation: checks that write names are pairwise
    /// distinct. A schema that fails this check would encode two fields
    /// under one external name.
    #[verifier::loop_isolation(false)]
    pub fn validate(&self) -> (r: bool)
        ensures
            r == schema_wf(self@),
    {
        let n = self.fields.len();
        let mut i: usize = 0;
        while i < n
            invariant
                0 <= i <= n,
                n == self.fields.len(),
                forall|a: int, b: int|
                    0 <= a < b < n && a < i ==> self@[a].write_name != self@[b].write_name,
            decreases n - i,
        {
            let mut j: usize = i + 1;
            while j < n
                invariant
                    i < j <= n,
                    i < n,
                    n == self.fields.len(),
                    forall|b: int| i < b < j ==> self@[i as int].write_name != self@[b].write_name,
                decreases n - j,
            {
                if self.fields[i].write_name.eq(&self.fields[j].write_name) {
                    proof {
                        assert(self.fields@[i as int].write_name@ == self.fields@[
                            j as int
                        ].write_name@);
                        assert(self@[i as int] == self.fields@[i as int]@);
                        assert(self@[i as int].write_name == self.fields@[i as int].write_name@);
                        assert(self@[i as int].write_name == self@[j as int].write_name);
                        assert(!schema_wf(self@));
                    }
                    return false;
                }
                j += 1;
            }
            i += 1;
        }
        true
    }

    /// Checks that `record` pairs with this schema: right length, each
    /// value of its field's declared type.
    #[verifier::loop_isolation(false)]
    pub fn record_matches_schema(&self, record: &Vec<FieldValue>) -> (r: bool)
        ensures
            r == record_matches(self@, record_model(record@)),
    {
        if record.len() != self.fields.len() {
            return false;
        }
        let n = record.len();
        let mut i: usize = 0;
        while i < n
            invariant
                0 <= i <= n,
                n == record.len() == self.fields.len(),
                forall|k: int|
                    0 <= k < i ==> value_matches_type(
                        record_model(record@)[k],
                        self@[k].field_type,
                    ),
            decreases n - i,
        {
            let ok = match (&record[i], &self.fields[i].field_type) {
                (FieldValue::Int(_), FieldType::Int) => true,
                (FieldValue::Text(_), FieldType::Text) => true,
                (FieldValue::Flag(_), FieldType::Flag) => true,
                _ => false,
            };
            proof {
                assert(record_model(record@)[i as int] == record@[i as int]@);
                assert(self@[i as int] == self.fields@[i as int]@);
            }
            if !ok {
                return false;
            }
            i += 1;
        }
        true
    }
}

/// The default-value provider for an identifier field, as a registered
/// schema would configure it.
pub fn get_id() -> (r: i32)
    ensures
        r == 100,
{
    100
}

} // verus!
