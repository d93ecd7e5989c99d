//! The engine's general laws, each proved for every input its statement
//! admits: round trip, default substitution, aliasing, and the rename
//! asymmetry between decode and encode.
use crate::engine::{
    spec_decode, spec_decode_field, spec_decode_fields, spec_encode, spec_encode_field,
    ErrorModel,
};
use crate::numeric::lemma_decimal_round_trip;
use crate::schema::{
    record_matches, resolve_read, schema_wf, value_matches_type, DecodeConverter, EncodeConverter,
    FieldSpecModel, FieldValueModel, lemma_resolve_read_hits_first, lemma_resolve_read_misses,
};
use crate::value::{lemma_lookup_hits_first, lemma_lookup_misses, lookup_entry, ValModel};
use vstd::prelude::*;

verus! {

/// Default substitution: when no read name of the field is present in
/// the input mapping, a configured default becomes the field's value; a
/// field with neither a default nor the optional marker fails with the
/// missing-field error.
pub proof fn lemma_default_substitution(f: FieldSpecModel, entries: Seq<(Seq<char>, ValModel)>)
    requires
        forall|j: int|
            0 <= j < f.read_names.len() ==> lookup_entry(entries, f.read_names[j]) is None,
    ensures
        f.default_value is Some ==> spec_decode_field(f, entries) == Ok::<_, ErrorModel>(
            f.default_value->0,
        ),
        f.default_value is None && !f.optional ==> spec_decode_field(f, entries) == Err::<
            FieldValueModel,
            _,
        >(ErrorModel::MissingField { field: f.field_name }),
{
    lemma_resolve_read_misses(f.read_names, entries);
}

/// Aliasing, first half: when several read names are present at once,
/// the first-listed one wins — the field decodes from the value of the
/// earliest read name that has an entry.
pub proof fn lemma_alias_first_wins(
    f: FieldSpecModel,
    entries: Seq<(Seq<char>, ValModel)>,
    k: int,
)
    requires
        0 <= k < f.read_names.len(),
        lookup_entry(entries, f.read_names[k]) is Some,
        forall|j: int| 0 <= j < k ==> lookup_entry(entries, f.read_names[j]) is None,
    ensures
        resolve_read(f.read_names, entries) == lookup_entry(entries, f.read_names[k]),
{
    lemma_resolve_read_hits_first(f.read_names, entries, k);
}

/// Aliasing, second half: decoding succeeds identically whichever single
/// one of a field's read names carries the value. Two inputs that hold
/// the same value under any one alias each, and nothing under the other
/// aliases, decode the field to the same result.
pub proof fn lemma_alias_equivalent(
    f: FieldSpecModel,
    e1: Seq<(Seq<char>, ValModel)>,
    e2: Seq<(Seq<char>, ValModel)>,
    k1: int,
    k2: int,
    v: ValModel,
)
    requires
        0 <= k1 < f.read_names.len(),
        0 <= k2 < f.read_names.len(),
        lookup_entry(e1, f.read_names[k1]) == Some(v),
        lookup_entry(e2, f.read_names[k2]) == Some(v),
        forall|j: int|
            0 <= j < f.read_names.len() && j != k1 ==> lookup_entry(e1, f.read_names[j]) is None,
        forall|j: int|
            0 <= j < f.read_names.len() && j != k2 ==> lookup_entry(e2, f.read_names[j]) is None,
    ensures
        spec_decode_field(f, e1) == spec_decode_field(f, e2),
{
    lemma_resolve_read_hits_first(f.read_names, e1, k1);
    lemma_resolve_read_hits_first(f.read_names, e2, k2);
}

/// Rename asymmetry, decode half: what a field decodes to depends only
/// on its read names, never on its write name.
pub proof fn lemma_rename_asymmetry_decode(
    f: FieldSpecModel,
    g: FieldSpecModel,
    entries: Seq<(Seq<char>, ValModel)>,
)
    requires
        g.field_name == f.field_name,
        g.read_names == f.read_names,
        g.field_type == f.field_type,
        g.optional == f.optional,
        g.default_value == f.default_value,
        g.decode_converter == f.decode_converter,
        g.encode_converter == f.encode_converter,
    ensures
        spec_decode_field(f, entries) == spec_decode_field(g, entries),
{
}

/// Rename asymmetry, encode half: the encoded mapping carries each field
/// under its write name — the read names play no part in encoding.
pub proof fn lemma_rename_asymmetry_encode(
    schema: Seq<FieldSpecModel>,
    r: Seq<FieldValueModel>,
    i: int,
)
    requires
        0 <= i < schema.len(),
    ensures
        spec_encode(schema, r)->Mapping_0[i].0 == schema[i].write_name,
        spec_encode(schema, r)->Mapping_0[i].1 == spec_encode_field(schema[i], r[i]),
{
}

/// A field never loses information across a round trip: its write name
/// is among its read names, and its converters (if any) are a matched,
/// lossless pair for its declared type.
pub open spec fn field_round_trips(f: FieldSpecModel) -> bool {
    &&& f.read_names.contains(f.write_name)
    &&& match f.encode_converter {
        Some(EncodeConverter::IntToText) => f.field_type is Int && f.decode_converter == Some(
            DecodeConverter::IntFromText,
        ),
        None => match f.decode_converter {
            Some(DecodeConverter::IntFromText) => f.field_type is Int,
            None => true,
        },
    }
}

/// No field's read name is another field's write name, so no field can
/// pick up what another field wrote.
pub open spec fn no_cross_capture(schema: Seq<FieldSpecModel>) -> bool {
    forall|i: int, j: int, k: int|
        0 <= i < schema.len() && 0 <= j < schema.len() && i != j && 0 <= k
            < schema[i].read_names.len() ==> schema[i].read_names[k] != schema[j].write_name
}

/// A schema whose encoded output always decodes back: well-formed, free
/// of cross-field name capture, every field lossless.
pub open spec fn round_trip_schema(schema: Seq<FieldSpecModel>) -> bool {
    &&& schema_wf(schema)
    &&& no_cross_capture(schema)
    &&& forall|i: int| 0 <= i < schema.len() ==> field_round_trips(#[trigger] schema[i])
}

/// If `target` is among the scanned names, holds `v` in the mapping, and
/// every other scanned name is absent, the scan yields `v`.
proof fn lemma_resolve_single_target(
    names: Seq<Seq<char>>,
    entries: Seq<(Seq<char>, ValModel)>,
    target: Seq<char>,
    v: ValModel,
)
    requires
        names.contains(target),
        lookup_entry(entries, target) == Some(v),
        forall|j: int|
            0 <= j < names.len() && names[j] != target ==> lookup_entry(entries, names[j]) is None,
    ensures
        resolve_read(names, entries) == Some(v),
    decreases names.len(),
{
    if names[0] == target {
    } else {
        assert(lookup_entry(entries, names[0]) is None);
        let k = choose|k: int| 0 <= k < names.len() && names[k] == target;
        assert(names.skip(1)[k - 1] == target);
        assert(names.skip(1).contains(target));
        assert(forall|j: int| 0 <= j < names.skip(1).len() ==> names.skip(1)[j] == names[j + 1]);
        lemma_resolve_single_target(names.skip(1), entries, target, v);
    }
}

/// If every field decodes to its record value, the whole record decodes.
proof fn lemma_decode_fields_all_ok(
    schema: Seq<FieldSpecModel>,
    entries: Seq<(Seq<char>, ValModel)>,
    r: Seq<FieldValueModel>,
)
    requires
        r.len() == schema.len(),
        forall|i: int|
            0 <= i < schema.len() ==> spec_decode_field(#[trigger] schema[i], entries) == Ok::<
                _,
                ErrorModel,
            >(r[i]),
    ensures
        spec_decode_fields(schema, entries) == Ok::<_, ErrorModel>(r),
    decreases schema.len(),
{
    if schema.len() == 0 {
        assert(r =~= Seq::<FieldValueModel>::empty());
    } else {
        assert(forall|i: int|
            0 <= i < schema.drop_last().len() ==> schema.drop_last()[i] == schema[i]);
        lemma_decode_fields_all_ok(schema.drop_last(), entries, r.drop_last());
        assert(schema.last() == schema[schema.len() - 1]);
        assert(r.drop_last().push(r[r.len() - 1]) =~= r);
    }
}

/// Round trip: for any record paired with a schema whose fields read
/// their own write names and whose converters lose nothing, decoding the
/// encoded tree gives back exactly the record.
pub proof fn lemma_round_trip(schema: Seq<FieldSpecModel>, r: Seq<FieldValueModel>)
    requires
        round_trip_schema(schema),
        record_matches(schema, r),
    ensures
        spec_decode(schema, spec_encode(schema, r)) == Ok::<_, ErrorModel>(r),
{
    let vm = spec_encode(schema, r);
    let entries = vm->Mapping_0;
    assert(entries.len() == schema.len());
    assert(forall|j: int|
        0 <= j < entries.len() ==> #[trigger] entries[j] == (
            schema[j].write_name,
            spec_encode_field(schema[j], r[j]),
        ));
    assert forall|i: int|
        0 <= i < schema.len() implies spec_decode_field(#[trigger] schema[i], entries) == Ok::<
        _,
        ErrorModel,
    >(r[i]) by {
        let f = schema[i];
        let target = f.write_name;
        let vi = spec_encode_field(f, r[i]);
        assert(field_round_trips(f));
        assert(value_matches_type(r[i], f.field_type));
        // The entry written for field `i` is the first (and only) one
        // under `target`.
        assert(entries[i] == (target, vi));
        assert forall|j: int| 0 <= j < i implies entries[j].0 != target by {
            assert(schema[j].write_name != schema[i].write_name);
        }
        lemma_lookup_hits_first(entries, target, i);
        // Every other read name of field `i` is absent from the mapping.
        assert forall|k: int|
            0 <= k < f.read_names.len() && f.read_names[k] != target implies lookup_entry(
            entries,
            f.read_names[k],
        ) is None by {
            let name = f.read_names[k];
            assert forall|j: int| 0 <= j < entries.len() implies entries[j].0 != name by {
                if j != i {
                    assert(schema[i].read_names[k] != schema[j].write_name);
                }
            }
            lemma_lookup_misses(entries, name);
        }
        lemma_resolve_single_target(f.read_names, entries, target, vi);
        assert(resolve_read(f.read_names, entries) == Some(vi));
        // The value written for the field converts back to the field's
        // record value.
        match f.encode_converter {
            Some(EncodeConverter::IntToText) => {
                let n = r[i]->Int_0;
                assert(r[i] == FieldValueModel::Int(n));
                lemma_decimal_round_trip(n);
            },
            None => {
                match f.decode_converter {
                    Some(DecodeConverter::IntFromText) => {
                        let n = r[i]->Int_0;
                        assert(r[i] == FieldValueModel::Int(n));
                    },
                    None => {},
                }
            },
        }
    }
    lemma_decode_fields_all_ok(schema, entries, r);
}

} // verus!

