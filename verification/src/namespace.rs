//! The variable namespace: a mapping from top-level keys to typed
//! values, with dotted-key insertion that merges nested objects while
//! preserving sibling branches.

use vstd::prelude::*;
use vstd::string::StrSliceExecFns;

use crate::text::split_plain;
use crate::text::split_plain_spec;
use crate::text::str_eq;
use crate::value::TypedValue;
use crate::value::VModel;
use crate::value::lemma_all_wf;
use crate::value::lemma_entries_wf;
use crate::value::lemma_entry_models_distinct;
use crate::value::lemma_entry_models_of;
use crate::value::lemma_models_of;
use crate::value::lemma_entry_models_push;
use crate::value::lemma_entry_models_update;
use crate::value::pairs_to_map;

verus! {

broadcast use {
    vstd::seq::group_seq_axioms,
    vstd::std_specs::vec::group_vec_axioms,
};

/// A key of a map built from pairs is some pair's key.
pub proof fn lemma_ptm_contains(ps: Seq<(Seq<char>, VModel)>, k: Seq<char>)
    ensures
        pairs_to_map(ps).dom().contains(k) <==> (exists|i: int|
            0 <= i < ps.len() && (#[trigger] ps[i]).0 == k),
    decreases ps.len(),
{
    if ps.len() > 0 {
        lemma_ptm_contains(ps.drop_last(), k);
        if pairs_to_map(ps).dom().contains(k) {
            if ps.last().0 == k {
                assert(ps[ps.len() - 1].0 == k);
            } else {
                let i = choose|i: int| 0 <= i < ps.drop_last().len() && (#[trigger] ps.drop_last()[i]).0 == k;
                assert(ps[i].0 == k);
            }
        }
        if exists|i: int| 0 <= i < ps.len() && (#[trigger] ps[i]).0 == k {
            let i = choose|i: int| 0 <= i < ps.len() && (#[trigger] ps[i]).0 == k;
            if i < ps.len() - 1 {
                assert(ps.drop_last()[i].0 == k);
            }
        }
    }
}

/// With pairwise distinct keys, the map built from pairs sends each key
/// to its pair's value.
pub proof fn lemma_ptm_lookup(ps: Seq<(Seq<char>, VModel)>, i: int)
    requires
        0 <= i < ps.len(),
        forall|a: int, b: int| 0 <= a < b < ps.len() ==> (#[trigger] ps[a]).0 != (#[trigger] ps[b]).0,
    ensures
        pairs_to_map(ps).dom().contains(ps[i].0),
        pairs_to_map(ps)[ps[i].0] == ps[i].1,
    decreases ps.len(),
{
    if i == ps.len() - 1 {
        assert(ps.last() == ps[i]);
    } else {
        assert(forall|a: int, b: int|
            0 <= a < b < ps.drop_last().len() ==> (#[trigger] ps.drop_last()[a]).0 != (
            #[trigger] ps.drop_last()[b]).0);
        lemma_ptm_lookup(ps.drop_last(), i);
        assert(ps.drop_last()[i] == ps[i]);
        assert(ps[i].0 != ps.last().0);
    }
}

/// Replacing the pair at `i` by one with the same key turns the map
/// into the map with that key re-bound.
pub proof fn lemma_ptm_update(ps: Seq<(Seq<char>, VModel)>, i: int, x: (Seq<char>, VModel))
    requires
        0 <= i < ps.len(),
        forall|a: int, b: int| 0 <= a < b < ps.len() ==> (#[trigger] ps[a]).0 != (#[trigger] ps[b]).0,
        ps[i].0 == x.0,
    ensures
        pairs_to_map(ps.update(i, x)) == pairs_to_map(ps).insert(x.0, x.1),
    decreases ps.len(),
{
    let ups = ps.update(i, x);
    if i == ps.len() - 1 {
        assert(ups.drop_last() =~= ps.drop_last());
        assert(ups.last() == x);
        assert(pairs_to_map(ups) == pairs_to_map(ps.drop_last()).insert(x.0, x.1));
        assert(pairs_to_map(ps).insert(x.0, x.1) =~= pairs_to_map(ps.drop_last()).insert(
            x.0,
            x.1,
        ));
    } else {
        assert(forall|a: int, b: int|
            0 <= a < b < ps.drop_last().len() ==> (#[trigger] ps.drop_last()[a]).0 != (
            #[trigger] ps.drop_last()[b]).0);
        assert(ps.drop_last()[i] == ps[i]);
        lemma_ptm_update(ps.drop_last(), i, x);
        assert(ups.drop_last() =~= ps.drop_last().update(i, x));
        assert(ups.last() == ps.last());
        assert(ps[i].0 != ps.last().0);
        assert(pairs_to_map(ups) == pairs_to_map(ps.drop_last()).insert(x.0, x.1).insert(
            ps.last().0,
            ps.last().1,
        ));
        assert(pairs_to_map(ps.drop_last()).insert(x.0, x.1).insert(ps.last().0, ps.last().1)
            =~= pairs_to_map(ps.drop_last()).insert(ps.last().0, ps.last().1).insert(x.0, x.1));
    }
}

/// With pairwise distinct keys, the map built from pairs has exactly
/// one key per pair, and its domain is finite.
pub proof fn lemma_ptm_len(ps: Seq<(Seq<char>, VModel)>)
    requires
        forall|a: int, b: int| 0 <= a < b < ps.len() ==> (#[trigger] ps[a]).0 != (#[trigger] ps[b]).0,
    ensures
        pairs_to_map(ps).dom().finite(),
        pairs_to_map(ps).dom().len() == ps.len(),
    decreases ps.len(),
{
    broadcast use vstd::set::group_set_axioms;

    if ps.len() == 0 {
        assert(pairs_to_map(ps).dom() =~= Set::<Seq<char>>::empty());
    } else {
        let dl = ps.drop_last();
        assert(forall|a: int, b: int|
            0 <= a < b < dl.len() ==> (#[trigger] dl[a]).0 != (#[trigger] dl[b]).0);
        lemma_ptm_len(dl);
        lemma_ptm_contains(dl, ps.last().0);
        assert(forall|i: int| 0 <= i < dl.len() ==> #[trigger] dl[i] == ps[i]);
        assert(!pairs_to_map(dl).dom().contains(ps.last().0));
        assert(pairs_to_map(ps).dom() =~= pairs_to_map(dl).dom().insert(ps.last().0));
    }
}

/// Appending a pair binds its key in the map.
pub proof fn lemma_ptm_push(ps: Seq<(Seq<char>, VModel)>, x: (Seq<char>, VModel))
    ensures
        pairs_to_map(ps.push(x)) == pairs_to_map(ps).insert(x.0, x.1),
{
    assert(ps.push(x).drop_last() =~= ps);
    assert(ps.push(x).last() == x);
}

/// Inserting a typed value at a dotted path into an object map.
///
/// A one-segment path re-binds the key outright. A longer path descends
/// into the key's object, creating one if the key is absent or bound to
/// a non-object, re-binds the leaf at the end, and keeps every sibling
/// key untouched along the way.
pub open spec fn merge_model(
    obj: Map<Seq<char>, VModel>,
    path: Seq<Seq<char>>,
    v: VModel,
) -> Map<Seq<char>, VModel>
    recommends
        path.len() >= 1,
    decreases path.len(),
{
    if path.len() <= 1 {
        obj.insert(path[0], v)
    } else {
        let sub = if obj.dom().contains(path[0]) && obj[path[0]] is Object {
            obj[path[0]]->Object_0
        } else {
            Map::empty()
        };
        obj.insert(path[0], VModel::Object(merge_model(sub, path.subrange(1, path.len() as int), v)))
    }
}

/// A dotted-path insertion never loses a sibling: every top-level key
/// other than the path's first segment keeps its binding, and inside
/// the merged object every key other than the next segment keeps its
/// binding, at every level `merge_model` descends through.
pub proof fn lemma_merge_preserves_siblings(
    obj: Map<Seq<char>, VModel>,
    path: Seq<Seq<char>>,
    v: VModel,
    k: Seq<char>,
)
    requires
        path.len() >= 1,
        k != path[0],
    ensures
        merge_model(obj, path, v).dom().contains(k) == obj.dom().contains(k),
        obj.dom().contains(k) ==> merge_model(obj, path, v)[k] == obj[k],
{
}

/// Find the entry holding a key, if any.
fn find_key(entries: &Vec<(String, TypedValue)>, key: &str) -> (r: Option<usize>)
    ensures
        (match r {
            Some(i) => i < entries@.len() && entries@[i as int].0@ == key@,
            None => forall|i: int| 0 <= i < entries@.len() ==> (#[trigger] entries@[i]).0@ != key@,
        }),
{
    let n = entries.len();
    let mut i: usize = 0;
    while i < n
        invariant
            n == entries@.len(),
            i <= n,
            forall|k: int| 0 <= k < i ==> (#[trigger] entries@[k]).0@ != key@,
        decreases n - i,
    {
        if str_eq(entries[i].0.as_str(), key) {
            return Some(i);
        }
        i = i + 1;
    }
    None
}

/// Entry sequences this module works on: pairwise distinct keys and
/// well-formed values.
pub open spec fn entries_ok(es: Seq<(String, TypedValue)>) -> bool {
    &&& forall|a: int, b: int| 0 <= a < b < es.len() ==> (#[trigger] es[a]).0@ != (#[trigger] es[b]).0@
    &&& forall|i: int| 0 <= i < es.len() ==> (#[trigger] es[i]).1.wf()
}

/// The map an entry sequence denotes.
pub open spec fn entries_map(es: Seq<(String, TypedValue)>) -> Map<Seq<char>, VModel> {
    pairs_to_map(TypedValue::entry_models_of(es))
}

/// Merge a value into an entry sequence at the path segments from
/// `idx` on.
fn merge_entries(
    entries: Vec<(String, TypedValue)>,
    path: &Vec<String>,
    idx: usize,
    value: TypedValue,
) -> (r: Vec<(String, TypedValue)>)
    requires
        idx < path@.len(),
        entries_ok(entries@),
        value.wf(),
    ensures
        entries_ok(r@),
        entries_map(r@) == merge_model(
            entries_map(entries@),
            path.deep_view().subrange(idx as int, path@.len() as int),
            value.model(),
        ),
    decreases path@.len() - idx,
{
    let plen = path.len();
    let mut entries = entries;
    let ghost orig = entries@;
    let ghost segs = path.deep_view().subrange(idx as int, path@.len() as int);
    proof {
        assert(segs[0] == path@[idx as int]@);
        lemma_entry_models_of(orig);
        lemma_entry_models_distinct(orig);
    }
    let pos = find_key(&entries, path[idx].as_str());
    proof {
        if pos is Some {
            let i = pos->0 as int;
            assert(TypedValue::entry_models_of(orig)[i] == (orig[i].0@, orig[i].1.model()));
            lemma_ptm_lookup(TypedValue::entry_models_of(orig), i);
        } else {
            assert forall|i: int| 0 <= i < orig.len() implies (
            #[trigger] TypedValue::entry_models_of(orig)[i]).0 != segs[0] by {
                assert(TypedValue::entry_models_of(orig)[i] == (orig[i].0@, orig[i].1.model()));
            }
            lemma_ptm_contains(TypedValue::entry_models_of(orig), segs[0]);
        }
    }
    if idx + 1 == plen {
        proof {
            assert(segs.len() == 1);
        }
        match pos {
            Some(i) => {
                let (k, _old_value) = entries.remove(i);
                entries.insert(i, (k, value));
                proof {
                    assert(entries@ =~= orig.update(i as int, (orig[i as int].0, value)));
                    lemma_entry_models_update(orig, i as int, orig[i as int].0, value);
                    lemma_ptm_update(
                        TypedValue::entry_models_of(orig),
                        i as int,
                        (orig[i as int].0@, value.model()),
                    );
                    assert(forall|j: int|
                        0 <= j < entries@.len() ==> j != i as int ==> #[trigger] entries@[j]
                            == orig[j]);
                }
            },
            None => {
                let k = clone_string(&path[idx]);
                entries.push((k, value));
                proof {
                    lemma_entry_models_push(orig, entries@.last().0, value);
                    lemma_ptm_push(TypedValue::entry_models_of(orig), (segs[0], value.model()));
                    assert(forall|j: int|
                        0 <= j < orig.len() ==> #[trigger] entries@[j] == orig[j]);
                }
            },
        }
        entries
    } else {
        let ghost rest = path.deep_view().subrange(idx as int + 1, path@.len() as int);
        proof {
            assert(segs.subrange(1, segs.len() as int) =~= rest);
        }
        match pos {
            Some(i) => {
                let (k, old_value) = entries.remove(i);
                proof {
                    assert(old_value == orig[i as int].1);
                    assert(old_value.wf());
                }
                let sub: Vec<(String, TypedValue)> = match old_value {
                    TypedValue::Object(es) => es,
                    _ => Vec::new(),
                };
                proof {
                    let m = entries_map(orig);
                    assert(m[segs[0]] == orig[i as int].1.model());
                    if orig[i as int].1 is Object {
                        assert(orig[i as int].1.model() == VModel::Object(entries_map(sub@)));
                        assert(m[segs[0]]->Object_0 == entries_map(sub@));
                        lemma_entries_wf(sub@);
                    } else {
                        assert(!(m[segs[0]] is Object));
                        assert(TypedValue::entry_models_of(sub@) =~= Seq::<
                            (Seq<char>, VModel),
                        >::empty());
                    }
                    assert(entries_ok(sub@));
                }
                let merged = merge_entries(sub, path, idx + 1, value);
                let newv = TypedValue::Object(merged);
                proof {
                    assert(newv.wf()) by {
                        lemma_entries_wf(newv->Object_0@);
                    }
                }
                entries.insert(i, (k, newv));
                proof {
                    assert(entries@ =~= orig.update(i as int, (orig[i as int].0, newv)));
                    lemma_entry_models_update(orig, i as int, orig[i as int].0, newv);
                    lemma_ptm_update(
                        TypedValue::entry_models_of(orig),
                        i as int,
                        (orig[i as int].0@, newv.model()),
                    );
                    assert(forall|j: int|
                        0 <= j < entries@.len() ==> j != i as int ==> #[trigger] entries@[j]
                            == orig[j]);
                }
                entries
            },
            None => {
                proof {
                    assert(entries_ok(Seq::<(String, TypedValue)>::empty()));
                }
                let merged = merge_entries(Vec::new(), path, idx + 1, value);
                let newv = TypedValue::Object(merged);
                proof {
                    assert(TypedValue::entry_models_of(Seq::<(String, TypedValue)>::empty())
                        =~= Seq::<(Seq<char>, VModel)>::empty());
                    assert(newv.wf()) by {
                        lemma_entries_wf(newv->Object_0@);
                    }
                }
                let k = clone_string(&path[idx]);
                entries.push((k, newv));
                proof {
                    lemma_entry_models_push(orig, entries@.last().0, newv);
                    lemma_ptm_push(
                        TypedValue::entry_models_of(orig),
                        (segs[0], newv.model()),
                    );
                    assert(forall|j: int|
                        0 <= j < orig.len() ==> #[trigger] entries@[j] == orig[j]);
                }
                entries
            },
        }
    }
}

/// Copy a string.
fn clone_string(s: &String) -> (r: String)
    ensures
        r@ == s@,
{
    let c: String = s.clone();
    c
}

impl TypedValue {
    /// A value with the same model, copied level by level.
    #[verifier::loop_isolation(false)]
    pub(crate) fn duplicate(&self) -> (r: TypedValue)
        ensures
            r.model() == self.model(),
            self.wf() ==> r.wf(),
        decreases self,
    {
        match self {
            TypedValue::Null => TypedValue::Null,
            TypedValue::Bool(b) => TypedValue::Bool(*b),
            TypedValue::Int64(i) => TypedValue::Int64(*i),
            TypedValue::Float64(s) => TypedValue::Float64(clone_string(s)),
            TypedValue::Str(s) => TypedValue::Str(clone_string(s)),
            TypedValue::Array(items) => {
                let n = items.len();
                let mut out: Vec<TypedValue> = Vec::new();
                let mut i: usize = 0;
                while i < n
                    invariant
                        i <= n,
                        n == items@.len(),
                        out@.len() == i,
                        forall|j: int|
                            0 <= j < i ==> (#[trigger] out@[j]).model() == items@[j].model(),
                        forall|j: int| 0 <= j < i ==> (items@[j].wf() ==> (#[trigger] out@[j]).wf()),
                    decreases n - i,
                {
                    out.push(items[i].duplicate());
                    i = i + 1;
                }
                let result = TypedValue::Array(out);
                proof {
                    lemma_models_of(out@);
                    lemma_models_of(items@);
                    assert forall|j: int|
                        0 <= j < out@.len() implies TypedValue::models_of(out@)[j]
                        == TypedValue::models_of(items@)[j] by {
                        assert(TypedValue::models_of(out@)[j] == out@[j].model());
                        assert(TypedValue::models_of(items@)[j] == items@[j].model());
                    }
                    assert(TypedValue::models_of(out@) =~= TypedValue::models_of(items@));
                    if self.wf() {
                        lemma_all_wf(items@);
                        lemma_all_wf(out@);
                    }
                }
                result
            },
            TypedValue::Object(entries) => {
                let n = entries.len();
                let mut out: Vec<(String, TypedValue)> = Vec::new();
                let mut i: usize = 0;
                while i < n
                    invariant
                        i <= n,
                        n == entries@.len(),
                        out@.len() == i,
                        forall|j: int| 0 <= j < i ==> (#[trigger] out@[j]).0@ == entries@[j].0@,
                        forall|j: int|
                            0 <= j < i ==> (#[trigger] out@[j]).1.model() == entries@[j].1.model(),
                        forall|j: int|
                            0 <= j < i ==> (entries@[j].1.wf() ==> (#[trigger] out@[j]).1.wf()),
                    decreases n - i,
                {
                    let k = clone_string(&entries[i].0);
                    let v = entries[i].1.duplicate();
                    out.push((k, v));
                    i = i + 1;
                }
                let result = TypedValue::Object(out);
                proof {
                    lemma_entry_models_of(out@);
                    lemma_entry_models_of(entries@);
                    assert forall|j: int|
                        0 <= j < out@.len() implies TypedValue::entry_models_of(out@)[j]
                        == TypedValue::entry_models_of(entries@)[j] by {
                        assert(TypedValue::entry_models_of(out@)[j] == (
                            out@[j].0@,
                            out@[j].1.model(),
                        ));
                        assert(TypedValue::entry_models_of(entries@)[j] == (
                            entries@[j].0@,
                            entries@[j].1.model(),
                        ));
                    }
                    assert(TypedValue::entry_models_of(out@) =~= TypedValue::entry_models_of(
                        entries@,
                    ));
                    if self.wf() {
                        lemma_entries_wf(entries@);
                        lemma_entries_wf(out@);
                    }
                }
                result
            },
        }
    }

    /// Look a key up in the object this value holds; `None` when the
    /// value is no object or the key is unbound.
    #[verifier::loop_isolation(false)]
    pub fn get(&self, key: &str) -> (r: Option<&TypedValue>)
        requires
            self.wf(),
        ensures
            (match r {
                Some(v) => self.model() matches VModel::Object(mp) && mp.dom().contains(key@)
                    && v.model() == mp[key@] && v.wf(),
                None => !(self.model() is Object) || (self.model() matches VModel::Object(mp)
                    && !mp.dom().contains(key@)),
            }),
    {
        match self {
            TypedValue::Object(entries) => {
                proof {
                    lemma_entry_models_of(entries@);
                    lemma_entry_models_distinct(entries@);
                    lemma_entries_wf(entries@);
                }
                let n = entries.len();
                let mut i: usize = 0;
                while i < n
                    invariant
                        i <= n,
                        n == entries@.len(),
                        forall|k: int| 0 <= k < i ==> (#[trigger] entries@[k]).0@ != key@,
                    decreases n - i,
                {
                    if str_eq(entries[i].0.as_str(), key) {
                        proof {
                            lemma_ptm_lookup(TypedValue::entry_models_of(entries@), i as int);
                        }
                        return Some(&entries[i].1);
                    }
                    i = i + 1;
                }
                proof {
                    assert forall|j: int|
                        0 <= j < entries@.len() implies (#[trigger] TypedValue::entry_models_of(
                        entries@,
                    )[j]).0 != key@ by {
                        assert(TypedValue::entry_models_of(entries@)[j] == (
                            entries@[j].0@,
                            entries@[j].1.model(),
                        ));
                    }
                    lemma_ptm_contains(TypedValue::entry_models_of(entries@), key@);
                }
                None
            },
            _ => None,
        }
    }
}

/// The namespace: top-level keys bound to typed values, later writes
/// overriding earlier ones.
#[derive(Debug)]
pub struct Namespace {
    entries: Vec<(String, TypedValue)>,
}

impl View for Namespace {
    type V = Map<Seq<char>, VModel>;

    closed spec fn view(&self) -> Map<Seq<char>, VModel> {
        entries_map(self.entries@)
    }
}

impl Namespace {
    /// Well-formed: distinct keys, well-formed values.
    pub closed spec fn wf(self) -> bool {
        entries_ok(self.entries@)
    }

    /// An empty namespace.
    pub fn new() -> (r: Namespace)
        ensures
            r@ == Map::<Seq<char>, VModel>::empty(),
            r.wf(),
    {
        let r = Namespace { entries: Vec::new() };
        proof {
            assert(TypedValue::entry_models_of(r.entries@) =~= Seq::<(Seq<char>, VModel)>::empty());
        }
        r
    }

    /// An equal namespace, copied entry by entry.
    #[verifier::loop_isolation(false)]
    pub fn duplicate(&self) -> (r: Namespace)
        requires
            self.wf(),
        ensures
            r@ == self@,
            r.wf(),
    {
        let n = self.entries.len();
        let mut out: Vec<(String, TypedValue)> = Vec::new();
        let mut i: usize = 0;
        while i < n
            invariant
                i <= n,
                n == self.entries@.len(),
                out@.len() == i,
                forall|j: int| 0 <= j < i ==> (#[trigger] out@[j]).0@ == self.entries@[j].0@,
                forall|j: int|
                    0 <= j < i ==> (#[trigger] out@[j]).1.model() == self.entries@[j].1.model(),
                forall|j: int| 0 <= j < i ==> (#[trigger] out@[j]).1.wf(),
            decreases n - i,
        {
            let k = clone_string(&self.entries[i].0);
            let v = self.entries[i].1.duplicate();
            out.push((k, v));
            i = i + 1;
        }
        let r = Namespace { entries: out };
        proof {
            lemma_entry_models_of(out@);
            lemma_entry_models_of(self.entries@);
            assert forall|j: int|
                0 <= j < out@.len() implies TypedValue::entry_models_of(out@)[j]
                == TypedValue::entry_models_of(self.entries@)[j] by {
                assert(TypedValue::entry_models_of(out@)[j] == (out@[j].0@, out@[j].1.model()));
                assert(TypedValue::entry_models_of(self.entries@)[j] == (
                    self.entries@[j].0@,
                    self.entries@[j].1.model(),
                ));
            }
            assert(TypedValue::entry_models_of(out@) =~= TypedValue::entry_models_of(
                self.entries@,
            ));
        }
        r
    }

    /// Bind a key, replacing any earlier binding.
    pub fn insert(&mut self, key: String, value: TypedValue)
        requires
            old(self).wf(),
            value.wf(),
        ensures
            final(self).wf(),
            final(self)@ == old(self)@.insert(key@, value.model()),
    {
        let ghost orig = self.entries@;
        proof {
            lemma_entry_models_of(orig);
            lemma_entry_models_distinct(orig);
        }
        let pos = find_key(&self.entries, key.as_str());
        match pos {
            Some(i) => {
                let (_k, _old_value) = self.entries.remove(i);
                self.entries.insert(i, (key, value));
                proof {
                    assert(self.entries@ =~= orig.update(
                        i as int,
                        (self.entries@[i as int].0, value),
                    ));
                    lemma_entry_models_update(orig, i as int, self.entries@[i as int].0, value);
                    assert(self.entries@[i as int].0@ == orig[i as int].0@);
                    lemma_ptm_update(
                        TypedValue::entry_models_of(orig),
                        i as int,
                        (orig[i as int].0@, value.model()),
                    );
                    assert(TypedValue::entry_models_of(orig).update(
                        i as int,
                        (self.entries@[i as int].0@, value.model()),
                    ) =~= TypedValue::entry_models_of(orig).update(
                        i as int,
                        (orig[i as int].0@, value.model()),
                    ));
                    assert(forall|j: int|
                        0 <= j < self.entries@.len() ==> j != i as int ==> #[trigger] self.entries@[j]
                            == orig[j]);
                }
            },
            None => {
                let ghost kv = key@;
                self.entries.push((key, value));
                proof {
                    lemma_entry_models_push(orig, self.entries@.last().0, value);
                    lemma_ptm_push(TypedValue::entry_models_of(orig), (kv, value.model()));
                    assert(forall|j: int|
                        0 <= j < orig.len() ==> #[trigger] self.entries@[j] == orig[j]);
                }
            },
        }
    }

    /// Bind a dotted key path, merging into existing nested objects:
    /// sibling keys off the path are preserved, and the leaf is
    /// re-bound. A path without a dot is a plain binding.
    pub fn insert_nested(&mut self, key_path: &str, value: TypedValue)
        requires
            old(self).wf(),
            value.wf(),
        ensures
            final(self).wf(),
            final(self)@ == merge_model(old(self)@, split_plain_spec(key_path@, '.'), value.model()),
    {
        let segs = split_plain(key_path, '.');
        let mut tmp: Vec<(String, TypedValue)> = Vec::new();
        core::mem::swap(&mut tmp, &mut self.entries);
        proof {
            assert(segs.deep_view().subrange(0, segs@.len() as int) =~= segs.deep_view());
        }
        let merged = merge_entries(tmp, &segs, 0, value);
        self.entries = merged;
    }

    /// Look a top-level key up.
    #[verifier::loop_isolation(false)]
    pub fn get(&self, key: &str) -> (r: Option<&TypedValue>)
        requires
            self.wf(),
        ensures
            (match r {
                Some(v) => self@.dom().contains(key@) && v.model() == self@[key@] && v.wf(),
                None => !self@.dom().contains(key@),
            }),
    {
        proof {
            lemma_entry_models_of(self.entries@);
        }
        let n = self.entries.len();
        let mut i: usize = 0;
        while i < n
            invariant
                n == self.entries@.len(),
                i <= n,
                forall|k: int| 0 <= k < i ==> (#[trigger] self.entries@[k]).0@ != key@,
        decreases n - i,
        {
            if str_eq(self.entries[i].0.as_str(), key) {
                proof {
                    lemma_entry_models_of(self.entries@);
                    lemma_entry_models_distinct(self.entries@);
                    lemma_ptm_lookup(TypedValue::entry_models_of(self.entries@), i as int);
                }
                return Some(&self.entries[i].1);
            }
            i = i + 1;
        }
        proof {
            lemma_entry_models_of(self.entries@);
            assert forall|j: int|
                0 <= j < self.entries@.len() implies (#[trigger] TypedValue::entry_models_of(
                self.entries@,
            )[j]).0 != key@ by {
                assert(TypedValue::entry_models_of(self.entries@)[j] == (
                    self.entries@[j].0@,
                    self.entries@[j].1.model(),
                ));
            }
            lemma_ptm_contains(TypedValue::entry_models_of(self.entries@), key@);
        }
        None
    }

    /// How many keys are bound.
    pub fn len(&self) -> (n: usize)
        requires
            self.wf(),
        ensures
            n == self@.dom().len(),
    {
        proof {
            lemma_entry_models_of(self.entries@);
            lemma_entry_models_distinct(self.entries@);
            lemma_ptm_len(TypedValue::entry_models_of(self.entries@));
        }
        self.entries.len()
    }

    /// Whether nothing is bound.
    pub fn is_empty(&self) -> (r: bool)
        requires
            self.wf(),
        ensures
            r == (self@ =~= Map::<Seq<char>, VModel>::empty()),
    {
        proof {
            lemma_entry_models_of(self.entries@);
            lemma_entry_models_distinct(self.entries@);
            if self.entries@.len() > 0 {
                lemma_ptm_lookup(TypedValue::entry_models_of(self.entries@), 0);
            } else {
                assert(TypedValue::entry_models_of(self.entries@) =~= Seq::<
                    (Seq<char>, VModel),
                >::empty());
            }
        }
        self.entries.len() == 0
    }

    /// The entries, in insertion order.
    pub fn entries(&self) -> (r: &Vec<(String, TypedValue)>)
        ensures
            entries_map(r@) == self@,
    {
        &self.entries
    }
}

} // verus!
