//! The typed values that variables take, and their mathematical model.

use vstd::prelude::*;

verus! {

broadcast use {
    vstd::seq::group_seq_axioms,
    vstd::std_specs::vec::group_vec_axioms,
};

/// A typed variable value: the closed union of what coercion and the
/// config decoders can produce. A float is carried as its decimal text
/// (the raw input for coerced values, the canonical rendering for JSON
/// numbers), so that the value itself is a plain string.
#[derive(Debug)]
pub enum TypedValue {
    Null,
    Bool(bool),
    Int64(i64),
    Float64(String),
    Str(String),
    Array(Vec<TypedValue>),
    Object(Vec<(String, TypedValue)>),
}

/// The mathematical model of a `TypedValue`: strings become `Seq<char>`,
/// arrays become `Seq`, and objects become `Map` (insertion order of an
/// object is irrelevant).
pub enum VModel {
    Null,
    Bool(bool),
    Int64(i64),
    Float64(Seq<char>),
    Str(Seq<char>),
    Array(Seq<VModel>),
    Object(Map<Seq<char>, VModel>),
}

/// Fold a sequence of key/value pairs into a map; a later pair with the
/// same key wins.
pub open spec fn pairs_to_map(pairs: Seq<(Seq<char>, VModel)>) -> Map<Seq<char>, VModel>
    decreases pairs.len(),
{
    if pairs.len() == 0 {
        Map::empty()
    } else {
        pairs_to_map(pairs.drop_last()).insert(pairs.last().0, pairs.last().1)
    }
}

impl TypedValue {
    /// The model of this value.
    pub open spec fn model(self) -> VModel
        decreases self, 1int,
    {
        match self {
            TypedValue::Null => VModel::Null,
            TypedValue::Bool(b) => VModel::Bool(b),
            TypedValue::Int64(i) => VModel::Int64(i),
            TypedValue::Float64(text) => VModel::Float64(text@),
            TypedValue::Str(s) => VModel::Str(s@),
            TypedValue::Array(items) => VModel::Array(Self::models_of(items@)),
            TypedValue::Object(entries) => VModel::Object(
                pairs_to_map(Self::entry_models_of(entries@)),
            ),
        }
    }

    /// The models of a sequence of values, element by element.
    pub open spec fn models_of(items: Seq<TypedValue>) -> Seq<VModel>
        decreases items, 0int,
    {
        if items.len() == 0 {
            Seq::empty()
        } else {
            seq![items[0].model()] + Self::models_of(items.subrange(1, items.len() as int))
        }
    }

    /// The models of a sequence of key/value pairs, pair by pair.
    pub open spec fn entry_models_of(entries: Seq<(String, TypedValue)>) -> Seq<
        (Seq<char>, VModel),
    >
        decreases entries, 0int,
    {
        if entries.len() == 0 {
            Seq::empty()
        } else {
            seq![(entries[0].0@, entries[0].1.model())] + Self::entry_models_of(
                entries.subrange(1, entries.len() as int),
            )
        }
    }

    /// Well-formed: every object level has pairwise distinct keys.
    pub open spec fn wf(self) -> bool
        decreases self, 1int,
    {
        match self {
            TypedValue::Array(items) => Self::all_wf(items@),
            TypedValue::Object(entries) => {
                &&& forall|i: int, j: int|
                    0 <= i < j < entries@.len() ==> (#[trigger] entries@[i].0)@ != (
                    #[trigger] entries@[j].0)@
                &&& Self::entries_wf(entries@)
            },
            _ => true,
        }
    }

    /// Every value in a sequence is well-formed.
    pub open spec fn all_wf(items: Seq<TypedValue>) -> bool
        decreases items, 0int,
    {
        if items.len() == 0 {
            true
        } else {
            items[0].wf() && Self::all_wf(items.subrange(1, items.len() as int))
        }
    }

    /// Every value in a sequence of key/value pairs is well-formed.
    pub open spec fn entries_wf(entries: Seq<(String, TypedValue)>) -> bool
        decreases entries, 0int,
    {
        if entries.len() == 0 {
            true
        } else {
            entries[0].1.wf() && Self::entries_wf(entries.subrange(1, entries.len() as int))
        }
    }

    /// Whether this is the null value.
    pub fn is_null(&self) -> (r: bool)
        ensures
            r == (self.model() is Null),
    {
        match self {
            TypedValue::Null => true,
            _ => false,
        }
    }

    /// The boolean this value holds, if it is one.
    pub fn as_bool(&self) -> (r: Option<bool>)
        ensures
            (match r {
                Some(b) => self.model() == VModel::Bool(b),
                None => !(self.model() is Bool),
            }),
    {
        match self {
            TypedValue::Bool(b) => Some(*b),
            _ => None,
        }
    }

    /// The integer this value holds, if it is one.
    pub fn as_i64(&self) -> (r: Option<i64>)
        ensures
            (match r {
                Some(i) => self.model() == VModel::Int64(i),
                None => !(self.model() is Int64),
            }),
    {
        match self {
            TypedValue::Int64(i) => Some(*i),
            _ => None,
        }
    }

    /// The string this value holds, if it is one.
    pub fn as_str(&self) -> (r: Option<&str>)
        ensures
            (match r {
                Some(s) => self.model() == VModel::Str(s@),
                None => !(self.model() is Str),
            }),
    {
        match self {
            TypedValue::Str(s) => Some(s.as_str()),
            _ => None,
        }
    }

    /// The decimal text of the float this value holds, if it is one.
    pub fn float_text(&self) -> (r: Option<&str>)
        ensures
            (match r {
                Some(s) => self.model() == VModel::Float64(s@),
                None => !(self.model() is Float64),
            }),
    {
        match self {
            TypedValue::Float64(s) => Some(s.as_str()),
            _ => None,
        }
    }

    /// The elements of the array this value holds, if it is one.
    pub fn as_array(&self) -> (r: Option<&Vec<TypedValue>>)
        ensures
            (match r {
                Some(items) => self.model() == VModel::Array(TypedValue::models_of(items@)) && (
                self.wf() ==> TypedValue::all_wf(items@)),
                None => !(self.model() is Array),
            }),
    {
        match self {
            TypedValue::Array(items) => Some(items),
            _ => None,
        }
    }

    /// The entries of the object this value holds, if it is one.
    pub fn as_object(&self) -> (r: Option<&Vec<(String, TypedValue)>>)
        ensures
            (match r {
                Some(entries) => self.model() == VModel::Object(
                    pairs_to_map(TypedValue::entry_models_of(entries@)),
                ),
                None => !(self.model() is Object),
            }),
    {
        match self {
            TypedValue::Object(entries) => Some(entries),
            _ => None,
        }
    }
}

/// `models_of` maps a sequence of values to their models, element by element.
pub proof fn lemma_models_of(items: Seq<TypedValue>)
    ensures
        TypedValue::models_of(items).len() == items.len(),
        forall|i: int|
            0 <= i < items.len() ==> TypedValue::models_of(items)[i] == (
            #[trigger] items[i]).model(),
    decreases items.len(),
{
    if items.len() > 0 {
        let sub = items.subrange(1, items.len() as int);
        lemma_models_of(sub);
        assert forall|i: int|
            0 <= i < items.len() implies TypedValue::models_of(items)[i] == (
        #[trigger] items[i]).model() by {
            if i > 0 {
                assert(sub[i - 1] == items[i]);
            }
        }
    }
}

/// `entry_models_of` maps a sequence of pairs to their models, pair by pair.
pub proof fn lemma_entry_models_of(entries: Seq<(String, TypedValue)>)
    ensures
        TypedValue::entry_models_of(entries).len() == entries.len(),
        forall|i: int|
            0 <= i < entries.len() ==> TypedValue::entry_models_of(entries)[i] == ((
            #[trigger] entries[i]).0@, entries[i].1.model()),
    decreases entries.len(),
{
    if entries.len() > 0 {
        let sub = entries.subrange(1, entries.len() as int);
        lemma_entry_models_of(sub);
        assert forall|i: int|
            0 <= i < entries.len() implies TypedValue::entry_models_of(entries)[i] == ((
        #[trigger] entries[i]).0@, entries[i].1.model()) by {
            if i > 0 {
                assert(sub[i - 1] == entries[i]);
            }
        }
    }
}

/// Distinct keys carry over from entries to their models.
pub proof fn lemma_entry_models_distinct(es: Seq<(String, TypedValue)>)
    requires
        forall|a: int, b: int| 0 <= a < b < es.len() ==> (#[trigger] es[a]).0@ != (#[trigger] es[b]).0@,
    ensures
        forall|a: int, b: int|
            0 <= a < b < es.len() ==> (#[trigger] TypedValue::entry_models_of(es)[a]).0 != (
            #[trigger] TypedValue::entry_models_of(es)[b]).0,
{
    lemma_entry_models_of(es);
    assert forall|a: int, b: int|
        0 <= a < b < es.len() implies (#[trigger] TypedValue::entry_models_of(es)[a]).0 != (
    #[trigger] TypedValue::entry_models_of(es)[b]).0 by {
        assert(TypedValue::entry_models_of(es)[a] == (es[a].0@, es[a].1.model()));
        assert(TypedValue::entry_models_of(es)[b] == (es[b].0@, es[b].1.model()));
    }
}

/// Updating one entry updates its model pair.
pub proof fn lemma_entry_models_update(es: Seq<(String, TypedValue)>, i: int, k: String, v: TypedValue)
    requires
        0 <= i < es.len(),
    ensures
        TypedValue::entry_models_of(es.update(i, (k, v))) =~= TypedValue::entry_models_of(
            es,
        ).update(i, (k@, v.model())),
{
    let ups = es.update(i, (k, v));
    lemma_entry_models_of(es);
    lemma_entry_models_of(ups);
    assert forall|j: int|
        0 <= j < es.len() implies TypedValue::entry_models_of(ups)[j]
        == TypedValue::entry_models_of(es).update(i, (k@, v.model()))[j] by {
        if j != i {
            assert(ups[j] == es[j]);
        } else {
            assert(ups[i] == (k, v));
        }
    }
}

/// Appending an entry appends its model pair.
pub proof fn lemma_entry_models_push(es: Seq<(String, TypedValue)>, k: String, v: TypedValue)
    ensures
        TypedValue::entry_models_of(es.push((k, v))) =~= TypedValue::entry_models_of(es).push(
            (k@, v.model()),
        ),
{
    let ps = es.push((k, v));
    lemma_entry_models_of(es);
    lemma_entry_models_of(ps);
    assert forall|j: int|
        0 <= j < ps.len() implies TypedValue::entry_models_of(ps)[j]
        == TypedValue::entry_models_of(es).push((k@, v.model()))[j] by {
        if j < es.len() {
            assert(ps[j] == es[j]);
        } else {
            assert(ps[j] == (k, v));
        }
    }
}

/// `all_wf` says exactly that each element is well-formed.
pub proof fn lemma_all_wf(items: Seq<TypedValue>)
    ensures
        TypedValue::all_wf(items) <==> (forall|i: int|
            0 <= i < items.len() ==> (#[trigger] items[i]).wf()),
    decreases items.len(),
{
    if items.len() > 0 {
        let sub = items.subrange(1, items.len() as int);
        lemma_all_wf(sub);
        assert(forall|i: int| 0 < i < items.len() ==> #[trigger] items[i] == sub[i - 1]);
        assert(forall|i: int| 0 <= i < sub.len() ==> #[trigger] sub[i] == items[i + 1]);
    }
}

/// `entries_wf` says exactly that each pair's value is well-formed.
pub proof fn lemma_entries_wf(entries: Seq<(String, TypedValue)>)
    ensures
        TypedValue::entries_wf(entries) <==> (forall|i: int|
            0 <= i < entries.len() ==> (#[trigger] entries[i]).1.wf()),
    decreases entries.len(),
{
    if entries.len() > 0 {
        let sub = entries.subrange(1, entries.len() as int);
        lemma_entries_wf(sub);
        assert(forall|i: int| 0 < i < entries.len() ==> #[trigger] entries[i] == sub[i - 1]);
        assert(forall|i: int| 0 <= i < sub.len() ==> #[trigger] sub[i] == entries[i + 1]);
    }
}

} // verus!
