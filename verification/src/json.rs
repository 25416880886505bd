//! Reading decoded JSON values into typed values.
//!
//! `serde_json::Value` is opaque to the verifier, so it is given an
//! abstract model: `jmodel` names the evident structure of a value, and
//! `jdepth` names its tree depth, which bounds the recursion. The one
//! trusted reader, `json_node_read`, exposes one level of a value; the
//! recursive conversion itself is verified against the model.

use vstd::prelude::*;

use crate::value::TypedValue;
use crate::value::VModel;
use crate::value::lemma_all_wf;
use crate::value::lemma_entries_wf;
use crate::value::lemma_entry_models_of;
use crate::value::lemma_models_of;
use crate::value::pairs_to_map;

verus! {

broadcast use {
    vstd::seq::group_seq_axioms,
    vstd::std_specs::vec::group_vec_axioms,
};

#[verifier::external_type_specification]
#[verifier::external_body]
pub struct ExValue(serde_json::Value);

/// The abstract structure of a decoded JSON value. A number is modelled
/// by what `Number::as_i64` returns and by its decimal text; strings,
/// arrays and objects are modelled structurally, objects in iteration
/// order.
pub enum JModel {
    JNull,
    JBool(bool),
    JNum(Option<i64>, Seq<char>),
    JStr(Seq<char>),
    JArr(Seq<JModel>),
    JObj(Seq<(Seq<char>, JModel)>),
}

/// The structure of a `serde_json::Value`, as its public enum and the
/// accessors of `serde_json::Number` show it. Depends on the value alone.
pub uninterp spec fn jmodel(v: serde_json::Value) -> JModel;

/// The tree depth of a `serde_json::Value`: each element of an array or
/// object sits strictly below its parent.
pub uninterp spec fn jdepth(v: serde_json::Value) -> nat;

/// One level of a decoded JSON value, read out into plain data.
pub enum JsonNode {
    Null,
    Bool(bool),
    Num(Option<i64>, String),
    Str(String),
    Arr(Vec<serde_json::Value>),
    Obj(Vec<(String, serde_json::Value)>),
}

/// Relies on `serde_json::Value` being a public enum (one arm per
/// variant, fields moved out), on `serde_json::Number::as_i64` and its
/// `Display` rendering, and on `serde_json::Map` iterating over its
/// entries, whose keys are distinct.
#[verifier::external_body]
fn json_node_read(v: serde_json::Value) -> (r: JsonNode)
    ensures
        (match jmodel(v) {
            JModel::JNull => r is Null,
            JModel::JBool(b) => r == JsonNode::Bool(b),
            JModel::JNum(oi, repr) => r matches JsonNode::Num(oi2, s) && oi2 == oi && s@ == repr,
            JModel::JStr(cs) => r matches JsonNode::Str(s) && s@ == cs,
            JModel::JArr(ms) => r matches JsonNode::Arr(elems) && elems@.len() == ms.len()
                && (forall|i: int| 0 <= i < ms.len() ==> jmodel(#[trigger] elems@[i]) == ms[i])
                && (forall|i: int| 0 <= i < ms.len() ==> jdepth(#[trigger] elems@[i]) < jdepth(v)),
            JModel::JObj(es) => r matches JsonNode::Obj(entries) && entries@.len() == es.len()
                && (forall|i: int| 0 <= i < es.len() ==> (#[trigger] entries@[i].0)@ == es[i].0)
                && (forall|i: int| 0 <= i < es.len() ==> jmodel(#[trigger] entries@[i].1) == es[i].1)
                && (forall|i: int| 0 <= i < es.len() ==> jdepth(#[trigger] entries@[i].1) < jdepth(v))
                && (forall|i: int, j: int|
                    0 <= i < j < es.len() ==> (#[trigger] entries@[i].0)@ != (#[trigger] entries@[j].0)@),
        }),
{
    match v {
        serde_json::Value::Null => JsonNode::Null,
        serde_json::Value::Bool(b) => JsonNode::Bool(b),
        serde_json::Value::Number(n) => JsonNode::Num(n.as_i64(), n.to_string()),
        serde_json::Value::String(s) => JsonNode::Str(s),
        serde_json::Value::Array(a) => JsonNode::Arr(a),
        serde_json::Value::Object(o) => JsonNode::Obj(o.into_iter().collect()),
    }
}

/// The typed value that a decoded JSON value converts to: integers stay
/// integers, any other number keeps its decimal text as a float, and
/// arrays and objects convert element by element.
pub open spec fn typed_of_jmodel(m: JModel) -> VModel
    decreases m, 1int,
{
    match m {
        JModel::JNull => VModel::Null,
        JModel::JBool(b) => VModel::Bool(b),
        JModel::JNum(oi, repr) => match oi {
            Some(i) => VModel::Int64(i),
            None => VModel::Float64(repr),
        },
        JModel::JStr(s) => VModel::Str(s),
        JModel::JArr(ms) => VModel::Array(typed_of_jlist(ms)),
        JModel::JObj(es) => VModel::Object(pairs_to_map(typed_of_jentries(es))),
    }
}

/// Convert a sequence of JSON models element by element.
pub open spec fn typed_of_jlist(ms: Seq<JModel>) -> Seq<VModel>
    decreases ms, 0int,
{
    if ms.len() == 0 {
        Seq::empty()
    } else {
        seq![typed_of_jmodel(ms[0])] + typed_of_jlist(ms.subrange(1, ms.len() as int))
    }
}

/// Convert a sequence of JSON object entries pair by pair.
pub open spec fn typed_of_jentries(es: Seq<(Seq<char>, JModel)>) -> Seq<(Seq<char>, VModel)>
    decreases es, 0int,
{
    if es.len() == 0 {
        Seq::empty()
    } else {
        seq![(es[0].0, typed_of_jmodel(es[0].1))] + typed_of_jentries(
            es.subrange(1, es.len() as int),
        )
    }
}

/// What `serde_json::from_str::<serde_json::Value>` yields for a string,
/// as a model; `None` when the string is not JSON. Depends on the
/// characters alone.
pub uninterp spec fn json_of(s: Seq<char>) -> Option<JModel>;

/// Relies on `serde_json::from_str::<serde_json::Value>`: success and
/// the decoded value depend on the input characters alone.
#[verifier::external_body]
pub(crate) fn json_parse(s: &str) -> (r: Option<serde_json::Value>)
    ensures
        r matches Some(v) ==> Some(jmodel(v)) == json_of(s@),
        r is None ==> json_of(s@) is None,
{
    serde_json::from_str(s).ok()
}

/// `typed_of_jlist` converts element by element.
pub proof fn lemma_typed_of_jlist(ms: Seq<JModel>)
    ensures
        typed_of_jlist(ms).len() == ms.len(),
        forall|i: int|
            0 <= i < ms.len() ==> typed_of_jlist(ms)[i] == typed_of_jmodel(#[trigger] ms[i]),
    decreases ms.len(),
{
    if ms.len() > 0 {
        let sub = ms.subrange(1, ms.len() as int);
        lemma_typed_of_jlist(sub);
        assert forall|i: int|
            0 <= i < ms.len() implies typed_of_jlist(ms)[i] == typed_of_jmodel(
            #[trigger] ms[i],
        ) by {
            if i > 0 {
                assert(sub[i - 1] == ms[i]);
            }
        }
    }
}

/// `typed_of_jentries` converts pair by pair.
pub proof fn lemma_typed_of_jentries(es: Seq<(Seq<char>, JModel)>)
    ensures
        typed_of_jentries(es).len() == es.len(),
        forall|i: int|
            0 <= i < es.len() ==> typed_of_jentries(es)[i] == ((#[trigger] es[i]).0,
            typed_of_jmodel(es[i].1)),
    decreases es.len(),
{
    if es.len() > 0 {
        let sub = es.subrange(1, es.len() as int);
        lemma_typed_of_jentries(sub);
        assert forall|i: int|
            0 <= i < es.len() implies typed_of_jentries(es)[i] == ((#[trigger] es[i]).0,
        typed_of_jmodel(es[i].1)) by {
            if i > 0 {
                assert(sub[i - 1] == es[i]);
            }
        }
    }
}

/// Convert a decoded JSON value into a typed value.
pub fn json_to_typed_value(v: serde_json::Value) -> (t: TypedValue)
    ensures
        t.model() == typed_of_jmodel(jmodel(v)),
        t.wf(),
    decreases jdepth(v),
{
    let ghost m = jmodel(v);
    match json_node_read(v) {
        JsonNode::Null => TypedValue::Null,
        JsonNode::Bool(b) => TypedValue::Bool(b),
        JsonNode::Num(oi, repr) => match oi {
            Some(i) => TypedValue::Int64(i),
            None => TypedValue::Float64(repr),
        },
        JsonNode::Str(s) => TypedValue::Str(s),
        JsonNode::Arr(mut elems) => {
            let ghost ms = m->JArr_0;
            let mut items: Vec<TypedValue> = Vec::new();
            let ghost orig = elems@;
            while elems.len() > 0
                invariant
                    items@.len() + elems@.len() == orig.len(),
                    elems@ == orig.skip(items@.len() as int),
                    ms.len() == orig.len(),
                    forall|i: int| 0 <= i < orig.len() ==> jmodel(#[trigger] orig[i]) == ms[i],
                    forall|i: int| 0 <= i < orig.len() ==> jdepth(#[trigger] orig[i]) < jdepth(v),
                    forall|i: int|
                        0 <= i < items@.len() ==> #[trigger] items@[i].model() == typed_of_jmodel(
                            ms[i],
                        ),
                    forall|i: int| 0 <= i < items@.len() ==> #[trigger] items@[i].wf(),
                decreases elems@.len(),
            {
                let ghost k = items@.len() as int;
                let e = elems.remove(0);
                proof {
                    assert(orig.skip(k)[0] == orig[k]);
                    assert(elems@ =~= orig.skip(k + 1));
                }
                let t = json_to_typed_value(e);
                items.push(t);
            }
            let result = TypedValue::Array(items);
            proof {
                lemma_models_of(items@);
                lemma_all_wf(items@);
                lemma_typed_of_jlist(ms);
                assert forall|i: int|
                    0 <= i < ms.len() implies TypedValue::models_of(items@)[i]
                    == typed_of_jlist(ms)[i] by {
                    assert(items@[i].model() == typed_of_jmodel(ms[i]));
                }
                assert(TypedValue::models_of(items@) =~= typed_of_jlist(ms));
            }
            result
        },
        JsonNode::Obj(mut entries) => {
            let ghost es = m->JObj_0;
            let mut fields: Vec<(String, TypedValue)> = Vec::new();
            let ghost orig = entries@;
            while entries.len() > 0
                invariant
                    fields@.len() + entries@.len() == orig.len(),
                    entries@ == orig.skip(fields@.len() as int),
                    es.len() == orig.len(),
                    forall|i: int| 0 <= i < orig.len() ==> (#[trigger] orig[i].0)@ == es[i].0,
                    forall|i: int| 0 <= i < orig.len() ==> jmodel(#[trigger] orig[i].1) == es[i].1,
                    forall|i: int|
                        0 <= i < orig.len() ==> jdepth(#[trigger] orig[i].1) < jdepth(v),
                    forall|i: int, j: int|
                        0 <= i < j < orig.len() ==> (#[trigger] orig[i].0)@ != (
                        #[trigger] orig[j].0)@,
                    forall|i: int|
                        0 <= i < fields@.len() ==> (#[trigger] fields@[i].0)@ == es[i].0,
                    forall|i: int|
                        0 <= i < fields@.len() ==> (#[trigger] fields@[i].1).model()
                            == typed_of_jmodel(es[i].1),
                    forall|i: int| 0 <= i < fields@.len() ==> (#[trigger] fields@[i].1).wf(),
                decreases entries@.len(),
            {
                let ghost k = fields@.len() as int;
                let e = entries.remove(0);
                proof {
                    assert(orig.skip(k)[0] == orig[k]);
                    assert(entries@ =~= orig.skip(k + 1));
                }
                let t = json_to_typed_value(e.1);
                fields.push((e.0, t));
            }
            let result = TypedValue::Object(fields);
            proof {
                lemma_entry_models_of(fields@);
                lemma_entries_wf(fields@);
                lemma_typed_of_jentries(es);
                assert forall|i: int, j: int|
                    0 <= i < j < fields@.len() implies (#[trigger] fields@[i].0)@ != (
                #[trigger] fields@[j].0)@ by {
                    assert((orig[i].0)@ == es[i].0);
                    assert((orig[j].0)@ == es[j].0);
                }
                assert forall|i: int|
                    0 <= i < es.len() implies TypedValue::entry_models_of(fields@)[i]
                    == typed_of_jentries(es)[i] by {
                    assert((fields@[i].0)@ == es[i].0);
                    assert(fields@[i].1.model() == typed_of_jmodel(es[i].1));
                }
                assert(TypedValue::entry_models_of(fields@) =~= typed_of_jentries(es));
            }
            result
        },
    }
}

} // verus!
