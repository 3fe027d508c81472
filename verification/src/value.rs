//! The tagged-union value tree that a parse produces, and its view onto
//! the mathematical model.

use vstd::prelude::*;

use crate::model::SpecValue;
use crate::model::spec_merge;

verus! {

/// A parsed configuration value.
///
/// String contents and object keys are UTF-8 encoded bytes. A float is
/// kept as its literal text exactly as written; widening to a machine
/// floating-point number is left to the embedding application.
/// An object is a sequence of key/value entries whose keys are unique;
/// its meaning is the key/value mapping, so key order is irrelevant.
#[derive(Debug)]
pub enum Value {
    Null,
    Boolean(bool),
    Int(i64),
    Float(Vec<u8>),
    String(Vec<u8>),
    Array(Vec<Value>),
    Object(Vec<(Vec<u8>, Value)>),
}

/// The model of a value: objects become maps (earliest entry wins where a
/// key is repeated, though well-formed values never repeat a key).
pub open spec fn value_model(v: Value) -> SpecValue
    decreases v,
{
    match v {
        Value::Null => SpecValue::Null,
        Value::Boolean(b) => SpecValue::Boolean(b),
        Value::Int(i) => SpecValue::Int(i),
        Value::Float(t) => SpecValue::Float(t@),
        Value::String(t) => SpecValue::Str(t@),
        Value::Array(items) => SpecValue::Arr(seq_model(items@)),
        Value::Object(entries) => SpecValue::Obj(assoc_model(entries@)),
    }
}

/// Model of an array's element sequence.
pub open spec fn seq_model(items: Seq<Value>) -> Seq<SpecValue>
    decreases items,
{
    if items.len() == 0 {
        Seq::empty()
    } else {
        seq![value_model(items[0])] + seq_model(items.drop_first())
    }
}

/// Model of an object's entry list as a map; the earliest entry for a key
/// wins.
pub open spec fn assoc_model(entries: Seq<(Vec<u8>, Value)>) -> Map<Seq<u8>, SpecValue>
    decreases entries,
{
    if entries.len() == 0 {
        Map::empty()
    } else {
        assoc_model(entries.drop_first()).insert(entries[0].0@, value_model(entries[0].1))
    }
}

impl View for Value {
    type V = SpecValue;

    open spec fn view(&self) -> SpecValue {
        value_model(*self)
    }
}

/// Well-formedness: every object's keys are pairwise distinct, at every
/// depth. The parser only builds well-formed values.
pub open spec fn wf(v: Value) -> bool
    decreases v,
{
    match v {
        Value::Array(items) => forall|k: int|
            0 <= k < items@.len() ==> wf(#[trigger] items@[k]),
        Value::Object(entries) => (forall|k: int|
            0 <= k < entries@.len() ==> wf(#[trigger] entries@[k].1)) && (forall|p: int, q: int|
            0 <= p < q < entries@.len() ==> entries@[p].0@ != entries@[q].0@),
        _ => true,
    }
}

/// First entry with the given key, if any.
pub open spec fn assoc_find(entries: Seq<(Vec<u8>, Value)>, key: Seq<u8>) -> Option<Value>
    decreases entries,
{
    if entries.len() == 0 {
        Option::None
    } else if entries[0].0@ == key {
        Option::Some(entries[0].1)
    } else {
        assoc_find(entries.drop_first(), key)
    }
}

/// The entry-list model agrees with first-entry lookup: a key is in the
/// map exactly when some entry carries it, and maps to the value of the
/// first such entry.
pub proof fn lemma_assoc_model_find(entries: Seq<(Vec<u8>, Value)>, key: Seq<u8>)
    ensures
        assoc_model(entries).dom().contains(key) == (assoc_find(entries, key) is Some),
        assoc_find(entries, key) matches Option::Some(v) ==> assoc_model(entries)[key]
            == value_model(v),
    decreases entries,
{
    if entries.len() > 0 {
        lemma_assoc_model_find(entries.drop_first(), key)
    }
}

/// The array model is the element-wise model of the array.
pub proof fn lemma_seq_model(items: Seq<Value>)
    ensures
        seq_model(items).len() == items.len(),
        forall|k: int| 0 <= k < items.len() ==> #[trigger] seq_model(items)[k] == value_model(
            items[k],
        ),
    decreases items,
{
    if items.len() > 0 {
        lemma_seq_model(items.drop_first())
    }
}

impl Value {
    /// A deep, structural copy: the copy has the same model.
    #[verifier::rlimit(50)]
    #[verifier::loop_isolation(false)]
    pub fn deep_copy(&self) -> (r: Value)
        ensures
            r@ == self@,
            wf(*self) ==> wf(r),
        decreases self,
    {
        match self {
            Value::Null => Value::Null,
            Value::Boolean(b) => Value::Boolean(*b),
            Value::Int(i) => Value::Int(*i),
            Value::Float(t) => Value::Float(copy_bytes(t)),
            Value::String(t) => Value::String(copy_bytes(t)),
            Value::Array(items) => {
                let mut out: Vec<Value> = Vec::new();
                let n = items.len();
                let mut k: usize = 0;
                while k < n
                    invariant
                        0 <= k <= n,
                        n == items@.len(),
                        out@.len() == k,
                        forall|m: int| 0 <= m < k ==> #[trigger] out@[m]@ == items@[m]@,
                        forall|m: int| 0 <= m < k ==> (wf(items@[m]) ==> wf(#[trigger] out@[m])),
                    decreases n - k,
                {
                    proof {
                        assert(decreases_to!(*self => self->Array_0));
                        assert(*items == self->Array_0);
                        assert(decreases_to!(*items => items@));
                        assert(decreases_to!(items@ => items@[k as int]));
                    }
                    out.push(items[k].deep_copy());
                    k = k + 1;
                }
                proof {
                    lemma_seq_model(items@);
                    lemma_seq_model(out@);
                    assert forall|m: int| 0 <= m < n implies seq_model(out@)[m] == seq_model(
                        items@,
                    )[m] by {
                        assert(out@[m]@ == items@[m]@);
                    }
                    assert(seq_model(out@) =~= seq_model(items@));
                }
                Value::Array(out)
            },
            Value::Object(entries) => {
                let mut out: Vec<(Vec<u8>, Value)> = Vec::new();
                let n = entries.len();
                let mut k: usize = 0;
                while k < n
                    invariant
                        0 <= k <= n,
                        n == entries@.len(),
                        out@.len() == k,
                        forall|m: int|
                            0 <= m < k ==> (#[trigger] out@[m]).0@ == entries@[m].0@
                                && out@[m].1@ == entries@[m].1@,
                        forall|m: int| 0 <= m < k ==> (wf(entries@[m].1) ==> wf(
                            #[trigger] out@[m].1,
                        )),
                    decreases n - k,
                {
                    let pair = &entries[k];
                    proof {
                        assert(decreases_to!(*self => self->Object_0));
                        assert(*entries == self->Object_0);
                        assert(decreases_to!(*entries => entries@));
                        assert(decreases_to!(entries@ => entries@[k as int]));
                        assert(decreases_to!(entries@[k as int] => entries@[k as int].1));
                    }
                    let copied_key = copy_bytes(&pair.0);
                    let copied_val = pair.1.deep_copy();
                    let ghost pre_out = out@;
                    out.push((copied_key, copied_val));
                    proof {
                        assert forall|m: int|
                            0 <= m < k + 1 implies (#[trigger] out@[m]).0@ == entries@[m].0@
                            && out@[m].1@ == entries@[m].1@ by {
                            if m < k {
                                assert(out@[m] == pre_out[m]);
                                assert(pre_out[m].0@ == entries@[m].0@ && pre_out[m].1@
                                    == entries@[m].1@);
                            } else {
                                assert(out@[m].0@ == entries@[m].0@);
                                assert(out@[m].1@ == entries@[m].1@);
                            }
                        }
                    }
                    k = k + 1;
                }
                proof {
                    lemma_assoc_model_congruent(entries@, out@);
                }
                Value::Object(out)
            },
        }
    }
}

/// Entry lists with equal keys and models have the same object model.
pub proof fn lemma_assoc_model_congruent(a: Seq<(Vec<u8>, Value)>, b: Seq<(Vec<u8>, Value)>)
    requires
        a.len() == b.len(),
        forall|m: int| 0 <= m < a.len() ==> #[trigger] b[m].0@ == a[m].0@ && b[m].1@ == a[m].1@,
    ensures
        assoc_model(a) == assoc_model(b),
    decreases a,
{
    if a.len() > 0 {
        lemma_assoc_model_congruent(a.drop_first(), b.drop_first());
        assert(assoc_model(a) =~= assoc_model(b));
    } else {
        assert(assoc_model(a) =~= assoc_model(b));
    }
}

/// Copy a byte vector.
#[verifier::loop_isolation(false)]
pub fn copy_bytes(v: &Vec<u8>) -> (r: Vec<u8>)
    ensures
        r@ == v@,
{
    let mut out: Vec<u8> = Vec::new();
    let n = v.len();
    let mut k: usize = 0;
    while k < n
        invariant
            0 <= k <= n,
            n == v@.len(),
            out@ == v@.subrange(0, k as int),
        decreases n - k,
    {
        out.push(v[k]);
        proof {
            assert(out@ =~= v@.subrange(0, k + 1));
        }
        k = k + 1;
    }
    proof {
        assert(v@.subrange(0, n as int) =~= v@);
    }
    out
}


/// Pushing an element appends its model.
pub proof fn lemma_seq_model_push(items: Seq<Value>, v: Value)
    ensures
        seq_model(items.push(v)) == seq_model(items).push(value_model(v)),
{
    lemma_seq_model(items);
    lemma_seq_model(items.push(v));
    assert(seq_model(items.push(v)) =~= seq_model(items).push(value_model(v)));
}

/// Byte-vector equality.
#[verifier::loop_isolation(false)]
pub fn bytes_eq(a: &Vec<u8>, b: &Vec<u8>) -> (r: bool)
    ensures
        r == (a@ == b@),
{
    let n = a.len();
    if n != b.len() {
        return false;
    }
    let mut k: usize = 0;
    while k < n
        invariant
            0 <= k <= n,
            n == a@.len() == b@.len(),
            forall|m: int| 0 <= m < k ==> a@[m] == #[trigger] b@[m],
        decreases n - k,
    {
        if a[k] != b[k] {
            return false;
        }
        k = k + 1;
    }
    proof {
        assert(a@ =~= b@);
    }
    true
}

/// Index of the first entry with the given key, if any.
#[verifier::loop_isolation(false)]
pub fn find_key(entries: &Vec<(Vec<u8>, Value)>, key: &Vec<u8>) -> (r: Option<usize>)
    ensures
        ({
            match r {
                Option::Some(idx) => idx < entries@.len() && entries@[idx as int].0@ == key@ && (
                forall|q: int| 0 <= q < idx ==> (#[trigger] entries@[q]).0@ != key@),
                Option::None => forall|q: int|
                    0 <= q < entries@.len() ==> (#[trigger] entries@[q]).0@ != key@,
            }
        }),
{
    let n = entries.len();
    let mut k: usize = 0;
    while k < n
        invariant
            0 <= k <= n,
            n == entries@.len(),
            forall|q: int| 0 <= q < k ==> (#[trigger] entries@[q]).0@ != key@,
        decreases n - k,
    {
        if bytes_eq(&entries[k].0, key) {
            return Option::Some(k);
        }
        k = k + 1;
    }
    Option::None
}

/// With pairwise distinct keys, each entry is what its key maps to.
pub proof fn lemma_assoc_unique_index(entries: Seq<(Vec<u8>, Value)>, q: int)
    requires
        0 <= q < entries.len(),
        forall|p1: int, p2: int|
            0 <= p1 < p2 < entries.len() ==> (#[trigger] entries[p1]).0@ != (
            #[trigger] entries[p2]).0@,
    ensures
        assoc_model(entries).dom().contains(entries[q].0@),
        assoc_model(entries)[entries[q].0@] == value_model(entries[q].1),
    decreases entries,
{
    if q > 0 {
        lemma_assoc_unique_index(entries.drop_first(), q - 1);
        assert(entries[0].0@ != entries[q].0@);
        assert(entries.drop_first()[q - 1] == entries[q]);
    }
}

/// Replacing the value of the entry at `idx` (keeping its key) updates
/// the model at that key, provided no earlier entry shadows it.
pub proof fn lemma_assoc_model_update(
    entries: Seq<(Vec<u8>, Value)>,
    idx: int,
    pair: (Vec<u8>, Value),
)
    requires
        0 <= idx < entries.len(),
        pair.0@ == entries[idx].0@,
        forall|q: int| 0 <= q < idx ==> (#[trigger] entries[q]).0@ != entries[idx].0@,
    ensures
        assoc_model(entries.update(idx, pair)) == assoc_model(entries).insert(
            pair.0@,
            value_model(pair.1),
        ),
    decreases entries,
{
    if idx == 0 {
        assert(entries.update(0, pair).drop_first() =~= entries.drop_first());
        assert(assoc_model(entries.update(0, pair)) =~= assoc_model(entries).insert(
            pair.0@,
            value_model(pair.1),
        ));
    } else {
        lemma_assoc_model_update(entries.drop_first(), idx - 1, pair);
        assert(entries.update(idx, pair).drop_first() =~= entries.drop_first().update(
            idx - 1,
            pair,
        ));
        assert(entries[0].0@ != pair.0@);
        assert(assoc_model(entries.update(idx, pair)) =~= assoc_model(entries).insert(
            pair.0@,
            value_model(pair.1),
        ));
    }
}

/// Appending an entry whose key no other entry carries inserts it into
/// the model.
pub proof fn lemma_assoc_model_push(entries: Seq<(Vec<u8>, Value)>, pair: (Vec<u8>, Value))
    requires
        forall|q: int| 0 <= q < entries.len() ==> (#[trigger] entries[q]).0@ != pair.0@,
    ensures
        assoc_model(entries.push(pair)) == assoc_model(entries).insert(
            pair.0@,
            value_model(pair.1),
        ),
    decreases entries,
{
    reveal_with_fuel(assoc_model, 3);
    if entries.len() == 0 {
        assert(entries.push(pair).drop_first() =~= Seq::empty());
        assert(entries.push(pair)[0] == pair);
        assert(assoc_model(entries.push(pair)) =~= assoc_model(entries).insert(
            pair.0@,
            value_model(pair.1),
        ));
    } else {
        lemma_assoc_model_push(entries.drop_first(), pair);
        assert(entries.push(pair).drop_first() =~= entries.drop_first().push(pair));
        assert(entries.push(pair)[0] == entries[0]);
        assert(entries[0].0@ != pair.0@);
        assert(assoc_model(entries.push(pair)) =~= assoc_model(entries).insert(
            pair.0@,
            value_model(pair.1),
        ));
    }
}

/// When no entry carries the key, lookup finds nothing.
pub proof fn lemma_assoc_find_none(entries: Seq<(Vec<u8>, Value)>, key: Seq<u8>)
    requires
        forall|q: int| 0 <= q < entries.len() ==> (#[trigger] entries[q]).0@ != key,
    ensures
        assoc_find(entries, key) is None,
    decreases entries,
{
    if entries.len() > 0 {
        assert(entries[0].0@ != key);
        lemma_assoc_find_none(entries.drop_first(), key);
    }
}

/// Whether one of the first `t` entries carries key `k`.
pub open spec fn key_before(entries: Seq<(Vec<u8>, Value)>, t: int, k: Seq<u8>) -> bool {
    exists|q: int| 0 <= q < t && (#[trigger] entries[q]).0@ == k
}

/// One step of `key_before`.
pub proof fn lemma_key_before_step(entries: Seq<(Vec<u8>, Value)>, t: int, k: Seq<u8>)
    requires
        1 <= t <= entries.len(),
    ensures
        key_before(entries, t, k) <==> (key_before(entries, t - 1, k) || entries[t - 1].0@ == k),
{
    if key_before(entries, t, k) {
        let q = choose|q: int| 0 <= q < t && (#[trigger] entries[q]).0@ == k;
        if q < t - 1 {
            assert(key_before(entries, t - 1, k));
        }
    }
    if key_before(entries, t - 1, k) {
        let q = choose|q: int| 0 <= q < t - 1 && (#[trigger] entries[q]).0@ == k;
        assert(0 <= q < t && entries[q].0@ == k);
    }
    if entries[t - 1].0@ == k {
        assert(0 <= t - 1 < t && entries[t - 1].0@ == k);
    }
}

/// Deep merge of two well-formed values: the overlay wins outright
/// unless both sides are objects, in which case the merge recurses key
/// by key; keys only in the base are preserved, keys only in the
/// overlay inserted.
#[verifier::loop_isolation(false)]
pub fn merge_json(base: Value, overlay: Value) -> (r: Value)
    requires
        wf(base),
        wf(overlay),
    ensures
        r@ == spec_merge(base@, overlay@),
        wf(r),
    decreases overlay,
{
    let ghost gold = base;
    let ghost gnew = overlay;
    match (base, overlay) {
        (Value::Object(mut prev), Value::Object(mut newlist)) => {
            let ghost prev0 = prev@;
            let ghost new0 = newlist@;
            proof {
                assert(gold->Object_0@ == prev0);
                assert(gnew->Object_0@ == new0);
                assert(forall|p1: int, p2: int|
                    0 <= p1 < p2 < new0.len() ==> (#[trigger] new0[p1]).0@ != (
                    #[trigger] new0[p2]).0@);
                assert(forall|q: int| 0 <= q < new0.len() ==> wf((#[trigger] new0[q]).1));
            }
            let mut t: usize = 0;
            let n = newlist.len();
            while newlist.len() > 0
                invariant
                    t as int + newlist@.len() == n == new0.len(),
                    newlist@ =~= new0.subrange(t as int, new0.len() as int),
                    forall|p1: int, p2: int|
                        0 <= p1 < p2 < prev@.len() ==> (#[trigger] prev@[p1]).0@ != (
                        #[trigger] prev@[p2]).0@,
                    forall|q: int| 0 <= q < prev@.len() ==> wf((#[trigger] prev@[q]).1),
                    forall|k: Seq<u8>|
                        #[trigger] assoc_model(prev@).dom().contains(k) <==> (assoc_model(
                            prev0,
                        ).dom().contains(k) || key_before(new0, t as int, k)),
                    forall|k: Seq<u8>|
                        #[trigger] assoc_model(prev@).dom().contains(k) ==> assoc_model(prev@)[k]
                            == ({
                            if key_before(new0, t as int, k) {
                                if assoc_model(prev0).dom().contains(k) {
                                    spec_merge(assoc_model(prev0)[k], assoc_model(new0)[k])
                                } else {
                                    assoc_model(new0)[k]
                                }
                            } else {
                                assoc_model(prev0)[k]
                            }
                        }),
                decreases newlist@.len(),
            {
                let (key, val) = newlist.remove(0);
                proof {
                    assert(key == new0[t as int].0 && val == new0[t as int].1);
                    assert(newlist@ =~= new0.subrange(t + 1, new0.len() as int));
                    lemma_assoc_unique_index(new0, t as int);
                    assert(wf(new0[t as int].1));
                    if key_before(new0, t as int, key@) {
                        let q = choose|q: int|
                            0 <= q < t && (#[trigger] new0[q]).0@ == key@;
                        assert(false);
                    }
                }
                let found = find_key(&prev, &key);
                match found {
                    Option::Some(idx) => {
                        let ghost pre = prev@;
                        let (key0, val0) = prev.remove(idx);
                        proof {
                            assert(decreases_to!(gnew => gnew->Object_0));
                            assert(decreases_to!(gnew->Object_0 => gnew->Object_0@));
                            assert(decreases_to!(gnew->Object_0@ => gnew->Object_0@[t as int]));
                            assert(decreases_to!(gnew->Object_0@[t as int] => gnew->Object_0@[t
                                as int].1));
                            assert(val == gnew->Object_0@[t as int].1);
                        }
                        let merged = merge_json(val0, val);
                        prev.insert(idx, (key0, merged));
                        proof {
                            assert(prev@ =~= pre.update(idx as int, (key0, merged)));
                            lemma_assoc_model_update(pre, idx as int, (key0, merged));
                            lemma_assoc_unique_index(pre, idx as int);
                            assert(assoc_model(pre).dom().contains(key@));
                        }
                    },
                    Option::None => {
                        let ghost pre = prev@;
                        prev.push((key, val));
                        proof {
                            lemma_assoc_model_push(pre, (key, val));
                            lemma_assoc_find_none(pre, key@);
                            lemma_assoc_model_find(pre, key@);
                            assert(!assoc_model(pre).dom().contains(key@));
                        }
                    },
                }
                t = t + 1;
                proof {
                    assert forall|k: Seq<u8>|
                        key_before(new0, t as int, k) <==> (key_before(new0, t - 1, k) || new0[t
                            - 1].0@ == k) by {
                        lemma_key_before_step(new0, t as int, k);
                    }
                }
            }
            proof {
                assert(gold->Object_0@ == prev0 && gnew->Object_0@ == new0);
                assert forall|k: Seq<u8>|
                    #[trigger] key_before(new0, t as int, k) <==> assoc_model(
                        new0,
                    ).dom().contains(k) by {
                    if key_before(new0, t as int, k) {
                        let q = choose|q: int| 0 <= q < t && (#[trigger] new0[q]).0@ == k;
                        lemma_assoc_unique_index(new0, q);
                    }
                    if assoc_model(new0).dom().contains(k) {
                        lemma_assoc_model_find(new0, k);
                        lemma_assoc_find_witness(new0, k);
                        let q = choose|q: int|
                            0 <= q < new0.len() && (#[trigger] new0[q]).0@ == k;
                        assert(key_before(new0, t as int, k));
                    }
                }
                let ghost m = spec_merge(gold@, gnew@);
                assert(m is Obj);
                assert(assoc_model(prev@) =~= m->Obj_0);
            }
            Value::Object(prev)
        },
        (_, other) => {
            proof {
                assert(gold@ is Obj ==> gold is Object);
                assert(gnew@ is Obj ==> gnew is Object);
            }
            other
        },
    }
}

/// A found key is carried by some entry.
pub proof fn lemma_assoc_find_witness(entries: Seq<(Vec<u8>, Value)>, key: Seq<u8>)
    requires
        assoc_find(entries, key) is Some,
    ensures
        exists|q: int| 0 <= q < entries.len() && (#[trigger] entries[q]).0@ == key,
    decreases entries,
{
    if entries.len() > 0 {
        if entries[0].0@ == key {
            assert(entries[0].0@ == key);
        } else {
            lemma_assoc_find_witness(entries.drop_first(), key);
            let q = choose|q: int|
                0 <= q < entries.drop_first().len() && (#[trigger] entries.drop_first()[q]).0@
                    == key;
            assert(entries[q + 1].0@ == key);
        }
    }
}


/// Element-wise equality of two arrays' models.
#[verifier::loop_isolation(false)]
fn arrays_eq(x: &Vec<Value>, y: &Vec<Value>) -> (r: bool)
    ensures
        r == (seq_model(x@) == seq_model(y@)),
    decreases x@,
{
    proof {
        lemma_seq_model(x@);
        lemma_seq_model(y@);
    }
    let n = x.len();
    if n != y.len() {
        return false;
    }
    let mut k: usize = 0;
    while k < n
        invariant
            0 <= k <= n,
            n == x@.len() == y@.len(),
            forall|m: int| 0 <= m < k ==> value_model(#[trigger] x@[m]) == value_model(y@[m]),
        decreases n - k,
    {
        proof {
            assert(decreases_to!(x@ => x@[k as int]));
        }
        if !value_eq(&x[k], &y[k]) {
            proof {
                assert(seq_model(x@)[k as int] != seq_model(y@)[k as int]);
            }
            return false;
        }
        k = k + 1;
    }
    proof {
        assert(seq_model(x@) =~= seq_model(y@));
    }
    true
}

/// Equality of two objects' models: the same keys, mapped to equal
/// values; entry order and shadowed duplicate keys do not matter.
#[verifier::loop_isolation(false)]
fn objects_eq(a: &Vec<(Vec<u8>, Value)>, b: &Vec<(Vec<u8>, Value)>) -> (r: bool)
    ensures
        r == (assoc_model(a@) == assoc_model(b@)),
    decreases a@,
{
    let n = a.len();
    let mut q: usize = 0;
    while q < n
        invariant
            0 <= q <= n,
            n == a@.len(),
            forall|m: int|
                0 <= m < q ==> assoc_model(b@).dom().contains((#[trigger] a@[m]).0@)
                    && assoc_model(a@)[a@[m].0@] == assoc_model(b@)[a@[m].0@],
        decreases n - q,
    {
        let key = &a[q].0;
        proof {
            lemma_assoc_model_find(a@, key@);
            lemma_assoc_model_find(b@, key@);
        }
        match find_key(b, key) {
            Option::None => {
                proof {
                    lemma_assoc_find_none(b@, key@);
                    if !assoc_model(a@).dom().contains(key@) {
                        lemma_assoc_find_witness_inv(a@, key@, q as int);
                    }
                }
                return false;
            },
            Option::Some(idx_b) => {
                match find_key(a, key) {
                    Option::None => {
                        proof {
                            assert(a@[q as int].0@ != key@);
                            assert(false);
                        }
                        return false;
                    },
                    Option::Some(idx_a) => {
                        proof {
                            crate::query::lemma_assoc_find_first(a@, key@, idx_a as int);
                            crate::query::lemma_assoc_find_first(b@, key@, idx_b as int);
                            assert(decreases_to!(a@ => a@[idx_a as int]));
                            assert(decreases_to!(a@[idx_a as int] => a@[idx_a as int].1));
                        }
                        if !value_eq(&a[idx_a].1, &b[idx_b].1) {
                            return false;
                        }
                    },
                }
            },
        }
        q = q + 1;
    }
    let nb = b.len();
    let mut p: usize = 0;
    while p < nb
        invariant
            0 <= p <= nb,
            nb == b@.len(),
            forall|m: int|
                0 <= m < a@.len() ==> assoc_model(b@).dom().contains((#[trigger] a@[m]).0@)
                    && assoc_model(a@)[a@[m].0@] == assoc_model(b@)[a@[m].0@],
            forall|m: int| 0 <= m < p ==> assoc_model(a@).dom().contains((#[trigger] b@[m]).0@),
        decreases nb - p,
    {
        let key = &b[p].0;
        proof {
            lemma_assoc_model_find(a@, key@);
        }
        match find_key(a, key) {
            Option::None => {
                proof {
                    lemma_assoc_find_none(a@, key@);
                    if !assoc_model(b@).dom().contains(key@) {
                        lemma_assoc_find_witness_inv(b@, key@, p as int);
                    }
                }
                return false;
            },
            Option::Some(_) => {
                proof {
                    crate::query::lemma_assoc_find_first(
                        a@,
                        key@,
                        choose|ix: int|
                            0 <= ix < a@.len() && a@[ix].0@ == key@ && forall|w: int|
                                0 <= w < ix ==> (#[trigger] a@[w]).0@ != key@,
                    );
                }
            },
        }
        p = p + 1;
    }
    proof {
        assert forall|k: Seq<u8>| #[trigger]
            assoc_model(a@).dom().contains(k) implies assoc_model(b@).dom().contains(k)
            && assoc_model(a@)[k] == assoc_model(b@)[k] by {
            lemma_assoc_model_find(a@, k);
            lemma_assoc_find_witness(a@, k);
            let m = choose|m: int| 0 <= m < a@.len() && (#[trigger] a@[m]).0@ == k;
        }
        assert forall|k: Seq<u8>| #[trigger]
            assoc_model(b@).dom().contains(k) implies assoc_model(a@).dom().contains(k) by {
            lemma_assoc_model_find(b@, k);
            lemma_assoc_find_witness(b@, k);
            let m = choose|m: int| 0 <= m < b@.len() && (#[trigger] b@[m]).0@ == k;
        }
        assert(assoc_model(a@) =~= assoc_model(b@));
    }
    true
}

/// An entry's key is in the object's model.
pub proof fn lemma_assoc_find_witness_inv(entries: Seq<(Vec<u8>, Value)>, key: Seq<u8>, q: int)
    requires
        0 <= q < entries.len(),
        entries[q].0@ == key,
    ensures
        assoc_model(entries).dom().contains(key),
    decreases entries,
{
    if q > 0 && entries[0].0@ != key {
        lemma_assoc_find_witness_inv(entries.drop_first(), key, q - 1);
        assert(entries.drop_first()[q - 1] == entries[q]);
    }
}

/// Equality of two values' models.
fn value_eq(this: &Value, other: &Value) -> (r: bool)
    ensures
        r == (this@ == other@),
    decreases this,
{
    {
        match (this, other) {
            (Value::Null, Value::Null) => true,
            (Value::Boolean(x), Value::Boolean(y)) => x == y,
            (Value::Int(x), Value::Int(y)) => x == y,
            (Value::Float(x), Value::Float(y)) => bytes_eq(x, y),
            (Value::String(x), Value::String(y)) => bytes_eq(x, y),
            (Value::Array(x), Value::Array(y)) => {
                proof {
                    assert(decreases_to!(*this => this->Array_0));
                    assert(decreases_to!(*x => x@));
                }
                arrays_eq(x, y)
            },
            (Value::Object(x), Value::Object(y)) => {
                proof {
                    assert(decreases_to!(*this => this->Object_0));
                    assert(decreases_to!(*x => x@));
                }
                objects_eq(x, y)
            },
            _ => false,
        }
    }
}

impl PartialEq for Value {
    /// Structural equality of the models: object entry order and
    /// shadowed duplicate keys do not matter.
    fn eq(&self, other: &Value) -> (r: bool) {
        value_eq(self, other)
    }
}

impl Clone for Value {
    /// A clone is a deep copy with the same model.
    fn clone(&self) -> (r: Value)
        ensures
            r@ == self@,
    {
        self.deep_copy()
    }
}

impl vstd::std_specs::cmp::PartialEqSpecImpl for Value {
    open spec fn obeys_eq_spec() -> bool {
        true
    }

    open spec fn eq_spec(&self, other: &Value) -> bool {
        self@ == other@
    }
}

} // verus!



