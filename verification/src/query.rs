//! The read-side path resolver and typed coercion helpers.

use vstd::prelude::*;
use vstd::utf8::encode_utf8;

use crate::error::Error;
use crate::grammar::SpecPath;
use crate::grammar::spec_path;
use crate::model::SpecValue;
use crate::parser::PathStep;
use crate::parser::json_object_path;
use crate::parser::segs_model;
use crate::value::Value;
use crate::value::assoc_find;
use crate::value::find_key;
use crate::value::lemma_assoc_model_find;
use crate::value::wf;

verus! {

/// Walk a value along path segments: each step requires the current
/// value to be an object carrying the next segment as a key.
pub open spec fn spec_lookup(m: SpecValue, segs: Seq<Seq<u8>>) -> Option<SpecValue>
    decreases segs.len(),
{
    if segs.len() == 0 {
        Option::Some(m)
    } else {
        match m {
            SpecValue::Obj(map) => if map.dom().contains(segs[0]) {
                spec_lookup(map[segs[0]], segs.drop_first())
            } else {
                Option::None
            },
            _ => Option::None,
        }
    }
}

/// Outcome of resolving a path expression against a value.
pub enum SpecGet {
    /// The path parsed cleanly and a value stands at that location.
    Found(SpecValue),
    /// The path parsed cleanly but no value stands there.
    Missing,
    /// The path expression itself has trailing or unparsable input.
    BadPath,
}

/// Resolution of a path string against a value: the path grammar must
/// consume the whole string, then the tree is walked segment by
/// segment.
pub open spec fn spec_get(m: SpecValue, p: Seq<u8>) -> SpecGet {
    match spec_path(p, 0) {
        SpecPath::Done { delta, segs } => if delta == p.len() {
            match spec_lookup(m, segs) {
                Option::Some(v) => SpecGet::Found(v),
                Option::None => SpecGet::Missing,
            }
        } else {
            SpecGet::BadPath
        },
        _ => SpecGet::BadPath,
    }
}

/// The byte string `true`.
pub open spec fn kw_true() -> Seq<u8> {
    seq![116u8, 114u8, 117u8, 101u8]
}

/// The byte string `yes`.
pub open spec fn kw_yes() -> Seq<u8> {
    seq![121u8, 101u8, 115u8]
}

/// The byte string `on`.
pub open spec fn kw_on() -> Seq<u8> {
    seq![111u8, 110u8]
}

/// The byte string `false`.
pub open spec fn kw_false() -> Seq<u8> {
    seq![102u8, 97u8, 108u8, 115u8, 101u8]
}

/// The byte string `no`.
pub open spec fn kw_no() -> Seq<u8> {
    seq![110u8, 111u8]
}

/// The byte string `off`.
pub open spec fn kw_off() -> Seq<u8> {
    seq![111u8, 102u8, 102u8]
}

/// Boolean coercion: booleans pass through; the exact strings `true`,
/// `yes`, `on` mean true and `false`, `no`, `off` mean false; nothing
/// else coerces.
pub open spec fn spec_bool_coerce(m: SpecValue) -> Option<bool> {
    match m {
        SpecValue::Boolean(b) => Option::Some(b),
        SpecValue::Str(t) => if t == kw_true() || t == kw_yes() || t == kw_on() {
            Option::Some(true)
        } else if t == kw_false() || t == kw_no() || t == kw_off() {
            Option::Some(false)
        } else {
            Option::None
        },
        _ => Option::None,
    }
}

/// Integer coercion: only integers pass.
pub open spec fn spec_int_coerce(m: SpecValue) -> Option<i64> {
    match m {
        SpecValue::Int(i) => Option::Some(i),
        _ => Option::None,
    }
}

/// Float coercion: a float literal passes through, and an integer is
/// accepted for widening; nothing else coerces.
pub open spec fn spec_float_coerce(m: SpecValue) -> Option<SpecValue> {
    match m {
        SpecValue::Float(t) => Option::Some(m),
        SpecValue::Int(i) => Option::Some(m),
        _ => Option::None,
    }
}

/// With a first match at `idx` and no earlier entry carrying the key,
/// lookup finds that entry.
pub proof fn lemma_assoc_find_first(entries: Seq<(Vec<u8>, Value)>, key: Seq<u8>, idx: int)
    requires
        0 <= idx < entries.len(),
        entries[idx].0@ == key,
        forall|q: int| 0 <= q < idx ==> (#[trigger] entries[q]).0@ != key,
    ensures
        assoc_find(entries, key) == Option::Some(entries[idx].1),
    decreases idx,
{
    if idx > 0 {
        lemma_assoc_find_first(entries.drop_first(), key, idx - 1);
        assert(entries[0].0@ != key);
    }
}

/// Class of a byte string under boolean coercion: 1 for a truthy
/// keyword, 2 for a falsy keyword, 0 otherwise.
fn keyword_class(t: &Vec<u8>) -> (r: u8)
    ensures
        (r == 1) == (t@ == kw_true() || t@ == kw_yes() || t@ == kw_on()),
        (r == 2) == (t@ == kw_false() || t@ == kw_no() || t@ == kw_off()),
{
    let n = t.len();
    if n == 4 && t[0] == 116 && t[1] == 114 && t[2] == 117 && t[3] == 101 {
        proof {
            assert(t@ =~= kw_true());
        }
        1
    } else if n == 3 && t[0] == 121 && t[1] == 101 && t[2] == 115 {
        proof {
            assert(t@ =~= kw_yes());
        }
        1
    } else if n == 2 && t[0] == 111 && t[1] == 110 {
        proof {
            assert(t@ =~= kw_on());
        }
        1
    } else if n == 5 && t[0] == 102 && t[1] == 97 && t[2] == 108 && t[3] == 115 && t[4] == 101 {
        proof {
            assert(t@ =~= kw_false());
        }
        2
    } else if n == 2 && t[0] == 110 && t[1] == 111 {
        proof {
            assert(t@ =~= kw_no());
        }
        2
    } else if n == 3 && t[0] == 111 && t[1] == 102 && t[2] == 102 {
        proof {
            assert(t@ =~= kw_off());
        }
        2
    } else {
        0
    }
}

impl Value {
    /// Resolve a dotted path expression against this value and return
    /// an owned copy of the value found there. A path that does not
    /// parse as a whole is a path error; a cleanly parsed path that
    /// leads nowhere reports the original path as not found.
    #[verifier::loop_isolation(false)]
    pub fn get(&self, path: &str) -> (r: Result<Value, Error>)
        ensures
            ({
                match spec_get(self@, encode_utf8(path@)) {
                    SpecGet::Found(m) => r matches Result::Ok(v) && v@ == m && (wf(*self) ==> wf(
                        v,
                    )),
                    SpecGet::Missing => r matches Result::Err(e) && e matches Error::NotFound(p)
                        && p@ == path@,
                    SpecGet::BadPath => r matches Result::Err(e) && e matches Error::PathError(p)
                        && p@ == path@,
                }
            }),
    {
        let bytes = path.as_bytes();
        let len = bytes.len();
        match json_object_path(bytes, 0) {
            PathStep::Done { next, segments } => {
                if next != len {
                    return Result::Err(Error::PathError(path.to_owned()));
                }
                let ghost segs = segs_model(segments@);
                let n = segments.len();
                let mut cur: &Value = self;
                let mut k: usize = 0;
                proof {
                    assert(segs.subrange(0, n as int) =~= segs);
                }
                while k < n
                    invariant
                        0 <= k <= n,
                        n == segments@.len(),
                        segs == segs_model(segments@),
                        spec_lookup(self@, segs) == spec_lookup(
                            cur@,
                            segs.subrange(k as int, n as int),
                        ),
                        wf(*self) ==> wf(*cur),
                    decreases n - k,
                {
                    let ghost suffix = segs.subrange(k as int, n as int);
                    proof {
                        assert(suffix[0] == segments@[k as int]@);
                        assert(suffix.drop_first() =~= segs.subrange(k + 1, n as int));
                    }
                    match cur {
                        Value::Object(entries) => {
                            match find_key(entries, &segments[k]) {
                                Option::Some(idx) => {
                                    proof {
                                        lemma_assoc_find_first(
                                            entries@,
                                            segments@[k as int]@,
                                            idx as int,
                                        );
                                        lemma_assoc_model_find(entries@, segments@[k as int]@);
                                    }
                                    cur = &entries[idx].1;
                                    k = k + 1;
                                },
                                Option::None => {
                                    proof {
                                        crate::value::lemma_assoc_find_none(
                                            entries@,
                                            segments@[k as int]@,
                                        );
                                        lemma_assoc_model_find(entries@, segments@[k as int]@);
                                    }
                                    return Result::Err(Error::NotFound(path.to_owned()));
                                },
                            }
                        },
                        _ => {
                            return Result::Err(Error::NotFound(path.to_owned()));
                        },
                    }
                }
                proof {
                    assert(segs.subrange(n as int, n as int).len() == 0);
                }
                Result::Ok(cur.deep_copy())
            },
            PathStep::Fail => Result::Err(Error::PathError(path.to_owned())),
            PathStep::Incomplete => Result::Err(Error::PathError(path.to_owned())),
        }
    }

    /// Resolve `path` and coerce the value to a boolean: booleans pass
    /// through, and the exact strings `true`/`yes`/`on` and
    /// `false`/`no`/`off` coerce; anything else is an incompatible
    /// type.
    pub fn get_bool(&self, path: &str) -> (r: Result<bool, Error>)
        ensures
            ({
                match spec_get(self@, encode_utf8(path@)) {
                    SpecGet::Found(m) => match spec_bool_coerce(m) {
                        Option::Some(b) => r == Result::<bool, Error>::Ok(b),
                        Option::None => r matches Result::Err(e) && e is IncompatibleType,
                    },
                    SpecGet::Missing => r matches Result::Err(e) && e matches Error::NotFound(p)
                        && p@ == path@,
                    SpecGet::BadPath => r matches Result::Err(e) && e matches Error::PathError(p)
                        && p@ == path@,
                }
            }),
    {
        match self.get(path) {
            Result::Err(e) => Result::Err(e),
            Result::Ok(v) => match v {
                Value::Boolean(b) => Result::Ok(b),
                Value::String(t) => {
                    let c = keyword_class(&t);
                    if c == 1 {
                        Result::Ok(true)
                    } else if c == 2 {
                        Result::Ok(false)
                    } else {
                        Result::Err(Error::IncompatibleType)
                    }
                },
                _ => Result::Err(Error::IncompatibleType),
            },
        }
    }

    /// Like `get_bool`, but any failure yields the caller's default.
    pub fn get_bool_or(&self, path: &str, default: bool) -> (r: bool)
        ensures
            r == ({
                match spec_get(self@, encode_utf8(path@)) {
                    SpecGet::Found(m) => match spec_bool_coerce(m) {
                        Option::Some(b) => b,
                        Option::None => default,
                    },
                    _ => default,
                }
            }),
    {
        match self.get_bool(path) {
            Result::Ok(b) => b,
            Result::Err(_) => default,
        }
    }

    /// Resolve `path` and require an integer.
    pub fn get_int(&self, path: &str) -> (r: Result<i64, Error>)
        ensures
            ({
                match spec_get(self@, encode_utf8(path@)) {
                    SpecGet::Found(m) => match spec_int_coerce(m) {
                        Option::Some(i) => r == Result::<i64, Error>::Ok(i),
                        Option::None => r matches Result::Err(e) && e is IncompatibleType,
                    },
                    SpecGet::Missing => r matches Result::Err(e) && e matches Error::NotFound(p)
                        && p@ == path@,
                    SpecGet::BadPath => r matches Result::Err(e) && e matches Error::PathError(p)
                        && p@ == path@,
                }
            }),
    {
        match self.get(path) {
            Result::Err(e) => Result::Err(e),
            Result::Ok(v) => match v {
                Value::Int(i) => Result::Ok(i),
                _ => Result::Err(Error::IncompatibleType),
            },
        }
    }

    /// Like `get_int`, but any failure yields the caller's default.
    pub fn get_int_or(&self, path: &str, default: i64) -> (r: i64)
        ensures
            r == ({
                match spec_get(self@, encode_utf8(path@)) {
                    SpecGet::Found(m) => match spec_int_coerce(m) {
                        Option::Some(i) => i,
                        Option::None => default,
                    },
                    _ => default,
                }
            }),
    {
        match self.get_int(path) {
            Result::Ok(i) => i,
            Result::Err(_) => default,
        }
    }

    /// Resolve `path` and require a numeric value: the float literal
    /// as written, or an integer to be widened. Widening to a machine
    /// floating-point number is left to the embedding application; the
    /// verified library carries the literal text.
    pub fn get_float(&self, path: &str) -> (r: Result<Value, Error>)
        ensures
            ({
                match spec_get(self@, encode_utf8(path@)) {
                    SpecGet::Found(m) => match spec_float_coerce(m) {
                        Option::Some(v2) => r matches Result::Ok(v) && v@ == v2,
                        Option::None => r matches Result::Err(e) && e is IncompatibleType,
                    },
                    SpecGet::Missing => r matches Result::Err(e) && e matches Error::NotFound(p)
                        && p@ == path@,
                    SpecGet::BadPath => r matches Result::Err(e) && e matches Error::PathError(p)
                        && p@ == path@,
                }
            }),
    {
        match self.get(path) {
            Result::Err(e) => Result::Err(e),
            Result::Ok(v) => match v {
                Value::Float(t) => Result::Ok(Value::Float(t)),
                Value::Int(i) => Result::Ok(Value::Int(i)),
                _ => Result::Err(Error::IncompatibleType),
            },
        }
    }

    /// Like `get_float`, but any failure yields the caller's default.
    pub fn get_float_or(&self, path: &str, default: Value) -> (r: Value)
        ensures
            r@ == ({
                match spec_get(self@, encode_utf8(path@)) {
                    SpecGet::Found(m) => match spec_float_coerce(m) {
                        Option::Some(v2) => v2,
                        Option::None => default@,
                    },
                    _ => default@,
                }
            }),
    {
        match self.get_float(path) {
            Result::Ok(v) => v,
            Result::Err(_) => default,
        }
    }
}

} // verus!
