//! The structured value tree that the engine reads from and writes to,
//! together with its mathematical model and the spec-level lookup
//! operations on mappings.
use vstd::prelude::*;

verus! {

broadcast use vstd::std_specs::vec::group_vec_axioms;

/// Mathematical model of a structured value tree: text is a sequence of
/// characters, sequences and mappings are mathematical sequences.
pub enum ValModel {
    Null,
    Bool(bool),
    Number(i64),
    Text(Seq<char>),
    Sequence(Seq<ValModel>),
    Mapping(Seq<(Seq<char>, ValModel)>),
}

/// The coarse shape of a structured value, used in error reports.
#[derive(Clone, Copy, Debug, PartialEq, Eq, Structural)]
pub enum ValueKind {
    NullKind,
    BoolKind,
    NumberKind,
    TextKind,
    SequenceKind,
    MappingKind,
}

/// A recursive, format-agnostic tree representing parsed structured data.
/// A mapping is kept as a vector of key/value pairs so that entry order is
/// preserved (encode emits fields in schema declaration order).
#[derive(Debug, PartialEq)]
pub enum StructuredValue {
    Null,
    Bool(bool),
    Number(i64),
    Text(String),
    Sequence(Vec<StructuredValue>),
    Mapping(Vec<(String, StructuredValue)>),
}

impl View for StructuredValue {
    type V = ValModel;

    open spec fn view(&self) -> ValModel
        decreases self,
    {
        match self {
            StructuredValue::Null => ValModel::Null,
            StructuredValue::Bool(b) => ValModel::Bool(*b),
            StructuredValue::Number(n) => ValModel::Number(*n),
            StructuredValue::Text(s) => ValModel::Text(s@),
            StructuredValue::Sequence(items) => ValModel::Sequence(
                Seq::new(
                    items@.len(),
                    |i: int|
                        if 0 <= i < items@.len() {
                            items[i]@
                        } else {
                            ValModel::Null
                        },
                ),
            ),
            StructuredValue::Mapping(entries) => ValModel::Mapping(
                Seq::new(
                    entries@.len(),
                    |i: int|
                        if 0 <= i < entries@.len() {
                            (entries[i].0@, entries[i].1@)
                        } else {
                            (Seq::empty(), ValModel::Null)
                        },
                ),
            ),
        }
    }
}

/// Model of a vector of mapping entries.
pub open spec fn entries_model(entries: Seq<(String, StructuredValue)>) -> Seq<
    (Seq<char>, ValModel),
> {
    Seq::new(entries.len(), |i: int| (entries[i].0@, entries[i].1@))
}

/// The view of a mapping value is the model of its entry vector.
pub proof fn lemma_mapping_view(v: StructuredValue)
    requires
        v is Mapping,
    ensures
        v@ == ValModel::Mapping(entries_model(v->Mapping_0@)),
{
    reveal_with_fuel(<StructuredValue as View>::view, 2);
    match v {
        StructuredValue::Mapping(entries) => {
            assert(v@->Mapping_0 =~~= entries_model(entries@));
        },
        _ => {},
    }
}

/// The shape of a model value.
pub open spec fn kind_of(v: ValModel) -> ValueKind {
    match v {
        ValModel::Null => ValueKind::NullKind,
        ValModel::Bool(_) => ValueKind::BoolKind,
        ValModel::Number(_) => ValueKind::NumberKind,
        ValModel::Text(_) => ValueKind::TextKind,
        ValModel::Sequence(_) => ValueKind::SequenceKind,
        ValModel::Mapping(_) => ValueKind::MappingKind,
    }
}

/// First entry of `entries` whose key is `name`, scanning in order.
pub open spec fn lookup_entry(entries: Seq<(Seq<char>, ValModel)>, name: Seq<char>) -> Option<
    ValModel,
>
    decreases entries.len(),
{
    if entries.len() == 0 {
        None
    } else if entries[0].0 == name {
        Some(entries[0].1)
    } else {
        lookup_entry(entries.skip(1), name)
    }
}

/// If `i` is the first index whose key is `name`, the scan returns that
/// entry's value.
pub proof fn lemma_lookup_hits_first(
    entries: Seq<(Seq<char>, ValModel)>,
    name: Seq<char>,
    i: int,
)
    requires
        0 <= i < entries.len(),
        entries[i].0 == name,
        forall|j: int| 0 <= j < i ==> entries[j].0 != name,
    ensures
        lookup_entry(entries, name) == Some(entries[i].1),
    decreases i,
{
    if i == 0 {
    } else {
        assert(entries[0].0 != name);
        assert(entries.skip(1)[i - 1] == entries[i]);
        assert(forall|j: int| 0 <= j < i - 1 ==> entries.skip(1)[j] == entries[j + 1]);
        lemma_lookup_hits_first(entries.skip(1), name, i - 1);
    }
}

/// If no entry's key is `name`, the scan returns `None`.
pub proof fn lemma_lookup_misses(entries: Seq<(Seq<char>, ValModel)>, name: Seq<char>)
    requires
        forall|j: int| 0 <= j < entries.len() ==> entries[j].0 != name,
    ensures
        lookup_entry(entries, name) is None,
    decreases entries.len(),
{
    if entries.len() == 0 {
    } else {
        assert(forall|j: int|
            0 <= j < entries.skip(1).len() ==> entries.skip(1)[j] == entries[j + 1]);
        lemma_lookup_misses(entries.skip(1), name);
    }
}

impl StructuredValue {
    /// The shape of this value.
    pub fn kind(&self) -> (r: ValueKind)
        ensures
            r == kind_of(self@),
    {
        match self {
            StructuredValue::Null => ValueKind::NullKind,
            StructuredValue::Bool(_) => ValueKind::BoolKind,
            StructuredValue::Number(_) => ValueKind::NumberKind,
            StructuredValue::Text(_) => ValueKind::TextKind,
            StructuredValue::Sequence(_) => ValueKind::SequenceKind,
            StructuredValue::Mapping(_) => ValueKind::MappingKind,
        }
    }
}

/// First value stored under `name`, or `None` if the mapping has no entry
/// with that key.
pub fn find_entry<'a>(entries: &'a Vec<(String, StructuredValue)>, name: &String) -> (r: Option<
    &'a StructuredValue,
>)
    ensures
        match r {
            Some(v) => lookup_entry(entries_model(entries@), name@) == Some(v@),
            None => lookup_entry(entries_model(entries@), name@) is None,
        },
{
    let ghost em = entries_model(entries@);
    let mut i: usize = 0;
    while i < entries.len()
        invariant
            0 <= i <= entries.len(),
            em == entries_model(entries@),
            forall|j: int| 0 <= j < i ==> em[j].0 != name@,
        decreases entries.len() - i,
    {
        if entries[i].0.eq(name) {
            proof {
                lemma_lookup_hits_first(em, name@, i as int);
            }
            return Some(&entries[i].1);
        }
        i += 1;
    }
    proof {
        lemma_lookup_misses(em, name@);
    }
    None
}

} // verus!
