//! The executable recursive-descent parser, proved to agree with the
//! specification grammar in `grammar`.

use vstd::prelude::*;

use crate::grammar::SpecEntry;
use crate::grammar::SpecObj;
use crate::grammar::SpecPath;
use crate::grammar::SpecRoot;
use crate::grammar::SpecSeg;
use crate::grammar::spec_array;
use crate::grammar::spec_body;
use crate::grammar::spec_chain;
use crate::grammar::spec_entries;
use crate::grammar::spec_entries_more;
use crate::grammar::spec_entry;
use crate::grammar::spec_fold_entries;
use crate::grammar::spec_items;
use crate::grammar::spec_items_more;
use crate::grammar::spec_object;
use crate::grammar::spec_path;
use crate::grammar::spec_path_more;
use crate::grammar::spec_root;
use crate::grammar::spec_segment;
use crate::grammar::spec_string;
use crate::grammar::spec_tag_false;
use crate::grammar::spec_tag_null;
use crate::grammar::spec_tag_true;
use crate::grammar::spec_value;
use crate::model::SpecValue;
use crate::num::float_at;
use crate::num::int_at;
use crate::scan::EscStep;
use crate::scan::escaped_string;
use crate::scan::find_triple;
use crate::scan::inferrable_comma;
use crate::scan::json_whitespace;
use crate::scan::unquoted_string;
use crate::text::utf8_range_ok;
use crate::text::utf8_vec_ok;
use crate::value::Value;
use crate::value::seq_model;
use crate::value::lemma_seq_model_push;
use crate::value::wf;
use crate::value::merge_json;

verus! {

/// Outcome of the value rule.
#[derive(Debug, PartialEq)]
pub enum ParseStep {
    Done { next: usize, value: Value },
    Fail,
}

/// Outcome of the brace-delimited object rule.
#[derive(Debug, PartialEq)]
pub enum ObjStep {
    Done { next: usize, value: Value },
    Fail,
    Incomplete,
}

/// Outcome of the dotted-path rule.
#[derive(Debug, PartialEq)]
pub enum PathStep {
    Done { next: usize, segments: Vec<Vec<u8>> },
    Fail,
    Incomplete,
}

/// Outcome of one path segment.
#[derive(Debug, PartialEq)]
pub enum SegStep {
    Done { next: usize, segment: Vec<u8> },
    Fail,
    Incomplete,
}

/// Outcome of one object entry.
#[derive(Debug, PartialEq)]
pub enum EntryStep {
    Done { next: usize, segments: Vec<Vec<u8>>, value: Value },
    Fail,
    Incomplete,
}

/// Outcome of the root rule.
#[derive(Debug, PartialEq)]
pub enum RootStep {
    Done { next: usize, value: Value },
    Incomplete,
}

/// The models of a list of path segments.
pub open spec fn segs_model(v: Seq<Vec<u8>>) -> Seq<Seq<u8>> {
    Seq::new(v.len(), |k: int| v[k]@)
}

/// Copy the bytes of `s` in `[from, to)` into a fresh vector.
#[verifier::loop_isolation(false)]
pub fn copy_range(s: &[u8], from: usize, to: usize) -> (r: Vec<u8>)
    requires
        from <= to <= s@.len(),
    ensures
        r@ == s@.subrange(from as int, to as int),
{
    let mut out: Vec<u8> = Vec::new();
    let mut k: usize = from;
    while k < to
        invariant
            from <= k <= to,
            out@ == s@.subrange(from as int, k as int),
        decreases to - k,
    {
        out.push(s[k]);
        proof {
            assert(out@ =~= s@.subrange(from as int, k + 1));
        }
        k = k + 1;
    }
    out
}

/// The string rule: triple-quoted raw text, quoted text with the `\"`
/// escape, or an unquoted token; each must be valid UTF-8.
pub fn string_at(s: &[u8], i: usize) -> (r: Option<(usize, Vec<u8>)>)
    requires
        i <= s@.len(),
    ensures
        ({
            match spec_string(s@, i as int) {
                Option::Some((n, t)) => r matches Option::Some((j, v)) && j as int == i + n && v@
                    == t && i < j <= s@.len(),
                Option::None => r is None,
            }
        }),
{
    let len = s.len();
    if len - i >= 3 && s[i] == 34 && s[i + 1] == 34 && s[i + 2] == 34 {
        match find_triple(s, i + 3) {
            Option::Some(q) => {
                if utf8_range_ok(s, i + 3, q) {
                    let text = copy_range(s, i + 3, q);
                    return Option::Some((q + 3, text));
                }
            },
            Option::None => {},
        }
    }
    if i < len && s[i] == 34 {
        match escaped_string(s, i + 1) {
            EscStep::Done { next, text } => {
                if utf8_vec_ok(&text) {
                    return Option::Some((next + 1, text));
                } else {
                    return Option::None;
                }
            },
            _ => {
                return Option::None;
            },
        }
    }
    let e = unquoted_string(s, i, true);
    if e > i && utf8_range_ok(s, i, e) {
        let text = copy_range(s, i, e);
        Option::Some((e, text))
    } else {
        Option::None
    }
}


/// The value rule: null, booleans, float, integer, string, array,
/// object — first match wins.
#[verifier::loop_isolation(false)]
pub fn json_value(s: &[u8], i: usize) -> (r: ParseStep)
    requires
        i <= s@.len(),
    ensures
        ({
            match spec_value(s@, i as int) {
                Option::Some((d, m)) => r matches ParseStep::Done { next, value } && next as int
                    == i + d && value@ == m && wf(value) && i < next <= s@.len(),
                Option::None => r is Fail,
            }
        }),
    decreases s@.len() - i, 1int,
{
    let len = s.len();
    if len - i >= 4 && s[i] == 110 && s[i + 1] == 117 && s[i + 2] == 108 && s[i + 3] == 108 {
        return ParseStep::Done { next: i + 4, value: Value::Null };
    }
    if len - i >= 4 && s[i] == 116 && s[i + 1] == 114 && s[i + 2] == 117 && s[i + 3] == 101 {
        return ParseStep::Done { next: i + 4, value: Value::Boolean(true) };
    }
    if len - i >= 5 && s[i] == 102 && s[i + 1] == 97 && s[i + 2] == 108 && s[i + 3] == 115 && s[i
        + 4] == 101 {
        return ParseStep::Done { next: i + 5, value: Value::Boolean(false) };
    }
    proof {
        assert(!spec_tag_null(s@, i as int));
        assert(!spec_tag_true(s@, i as int));
        assert(!spec_tag_false(s@, i as int));
    }
    match float_at(s, i) {
        Option::Some(e) => {
            let lit = copy_range(s, i, e);
            return ParseStep::Done { next: e, value: Value::Float(lit) };
        },
        Option::None => {},
    }
    match int_at(s, i) {
        Option::Some((j, v)) => {
            return ParseStep::Done { next: j, value: Value::Int(v) };
        },
        Option::None => {},
    }
    match string_at(s, i) {
        Option::Some((j, t)) => {
            return ParseStep::Done { next: j, value: Value::String(t) };
        },
        Option::None => {},
    }
    match array_at(s, i) {
        Option::Some((j, items)) => {
            return ParseStep::Done { next: j, value: Value::Array(items) };
        },
        Option::None => {},
    }
    match object_at(s, i) {
        ObjStep::Done { next, value } => ParseStep::Done { next, value },
        _ => ParseStep::Fail,
    }
}

/// Array elements: a possibly empty list of values separated by the
/// inferred-comma rule; never fails.
fn items_at(s: &[u8], i: usize) -> (r: (usize, Vec<Value>))
    requires
        i <= s@.len(),
    ensures
        r.0 as int == i + spec_items(s@, i as int).0,
        seq_model(r.1@) == spec_items(s@, i as int).1,
        forall|k: int| 0 <= k < r.1@.len() ==> wf(#[trigger] r.1@[k]),
        i <= r.0 <= s@.len(),
    decreases s@.len() - i, 2int,
{
    let len = s.len();
    let mut acc: Vec<Value> = Vec::new();
    match json_value(s, i) {
        ParseStep::Fail => {
            proof {
                assert(seq_model(acc@) =~= Seq::<SpecValue>::empty());
            }
            return (i, acc);
        },
        ParseStep::Done { next, value } => {
            proof {
                lemma_seq_model_push(acc@, value);
                assert(seq_model(Seq::<Value>::empty()) =~= Seq::<SpecValue>::empty());
            }
            acc.push(value);
            let mut p = next;
            loop
                invariant
                    i < p <= len,
                    len == s@.len(),
                    forall|k: int| 0 <= k < acc@.len() ==> wf(#[trigger] acc@[k]),
                    spec_items(s@, i as int).0 == (p - i) + spec_items_more(s@, p as int).0,
                    spec_items(s@, i as int).1 == seq_model(acc@) + spec_items_more(
                        s@,
                        p as int,
                    ).1,
                ensures
                    i < p <= len,
                    forall|k: int| 0 <= k < acc@.len() ==> wf(#[trigger] acc@[k]),
                    spec_items(s@, i as int).0 == p - i,
                    spec_items(s@, i as int).1 == seq_model(acc@),
                decreases len - p,
            {
                let stop: bool;
                match inferrable_comma(s, p) {
                    Option::None => {
                        stop = true;
                    },
                    Option::Some(q) => {
                        match json_value(s, q) {
                            ParseStep::Fail => {
                                stop = true;
                            },
                            ParseStep::Done { next, value } => {
                                proof {
                                    let more = spec_items_more(s@, p as int);
                                    let rest = spec_items_more(s@, next as int);
                                    assert(more.0 == (next - p) + rest.0);
                                    assert(more.1 == seq![value@] + rest.1);
                                    lemma_seq_model_push(acc@, value);
                                    assert(seq_model(acc@.push(value)) =~= seq_model(acc@)
                                        + seq![value@]);
                                    assert((seq_model(acc@) + seq![value@]) + rest.1 =~= seq_model(
                                        acc@,
                                    ) + (seq![value@] + rest.1));
                                }
                                acc.push(value);
                                p = next;
                                stop = false;
                            },
                        }
                    },
                }
                if stop {
                    proof {
                        assert(spec_items_more(s@, p as int) == (0nat, Seq::<SpecValue>::empty()));
                        assert(seq_model(acc@) + Seq::<SpecValue>::empty() =~= seq_model(acc@));
                    }
                    break ;
                }
            }
            (p, acc)
        },
    }
}

/// The array rule: `[`, whitespace, elements, whitespace, `]`.
#[verifier::loop_isolation(false)]
pub fn array_at(s: &[u8], i: usize) -> (r: Option<(usize, Vec<Value>)>)
    requires
        i <= s@.len(),
    ensures
        ({
            match spec_array(s@, i as int) {
                Option::Some((d, items)) => r matches Option::Some((j, v)) && j as int == i + d
                    && seq_model(v@) == items && (forall|k: int|
                    0 <= k < v@.len() ==> wf(#[trigger] v@[k])) && i < j <= s@.len(),
                Option::None => r is None,
            }
        }),
    decreases s@.len() - i, 0int,
{
    let len = s.len();
    if i >= len || s[i] != 91 {
        return Option::None;
    }
    let p0 = json_whitespace(s, i + 1);
    let (p, items) = items_at(s, p0);
    let p2 = json_whitespace(s, p);
    if p2 < len && s[p2] == 93 {
        Option::Some((p2 + 1, items))
    } else {
        Option::None
    }
}

/// The object rule: `{`, whitespace, object body, whitespace, `}`.
#[verifier::loop_isolation(false)]
pub fn object_at(s: &[u8], i: usize) -> (r: ObjStep)
    requires
        i <= s@.len(),
    ensures
        ({
            match spec_object(s@, i as int) {
                SpecObj::Done { delta, v } => r matches ObjStep::Done { next, value } && next
                    as int == i + delta && value@ == v && wf(value) && i < next <= s@.len(),
                SpecObj::Fail => r is Fail,
                SpecObj::Incomplete => r is Incomplete,
            }
        }),
    decreases s@.len() - i, 0int,
{
    let len = s.len();
    if i >= len {
        return ObjStep::Incomplete;
    }
    if s[i] != 123 {
        return ObjStep::Fail;
    }
    let p0 = json_whitespace(s, i + 1);
    let (p, value) = body_at(s, p0);
    let p2 = json_whitespace(s, p);
    if p2 >= len {
        ObjStep::Incomplete
    } else if s[p2] == 125 {
        ObjStep::Done { next: p2 + 1, value }
    } else {
        ObjStep::Fail
    }
}

/// One path segment: a quoted string or a dot-free unquoted token.
pub fn segment_at(s: &[u8], i: usize) -> (r: SegStep)
    requires
        i <= s@.len(),
    ensures
        ({
            match spec_segment(s@, i as int) {
                SpecSeg::Done { delta, seg } => r matches SegStep::Done { next, segment } && next
                    as int == i + delta && segment@ == seg && i < next <= s@.len(),
                SpecSeg::Fail => r is Fail,
                SpecSeg::Incomplete => r is Incomplete,
            }
        }),
{
    let len = s.len();
    if i < len && s[i] == 34 {
        match escaped_string(s, i + 1) {
            EscStep::Done { next, text } => {
                if utf8_vec_ok(&text) {
                    SegStep::Done { next: next + 1, segment: text }
                } else {
                    SegStep::Fail
                }
            },
            EscStep::Incomplete => SegStep::Incomplete,
            EscStep::Fail => SegStep::Fail,
        }
    } else {
        let e = unquoted_string(s, i, false);
        if e == i {
            SegStep::Incomplete
        } else if utf8_range_ok(s, i, e) {
            SegStep::Done { next: e, segment: copy_range(s, i, e) }
        } else {
            SegStep::Fail
        }
    }
}

/// The dotted-path rule: one or more segments separated by dots.
pub fn json_object_path(s: &[u8], i: usize) -> (r: PathStep)
    requires
        i <= s@.len(),
    ensures
        ({
            match spec_path(s@, i as int) {
                SpecPath::Done { delta, segs } => r matches PathStep::Done { next, segments }
                    && next as int == i + delta && segs_model(segments@) == segs && i < next
                    <= s@.len(),
                SpecPath::Fail => r is Fail,
                SpecPath::Incomplete => r is Incomplete,
            }
        }),
{
    let len = s.len();
    match segment_at(s, i) {
        SegStep::Fail => PathStep::Fail,
        SegStep::Incomplete => PathStep::Incomplete,
        SegStep::Done { next, segment } => {
            let mut segs: Vec<Vec<u8>> = Vec::new();
            proof {
                assert(segs_model(segs@.push(segment)) =~= segs_model(segs@).push(segment@));
                assert(segs_model(Seq::<Vec<u8>>::empty()).push(segment@) =~= seq![segment@]);
            }
            segs.push(segment);
            let mut p = next;
            loop
                invariant
                    i < p <= len,
                    len == s@.len(),
                    spec_path(s@, i as int) matches SpecPath::Done { delta, segs: ss } && delta
                        as int == (p - i) + spec_path_more(s@, p as int).0 && ss == segs_model(
                        segs@,
                    ) + spec_path_more(s@, p as int).1,
                ensures
                    i < p <= len,
                    spec_path(s@, i as int) matches SpecPath::Done { delta, segs: ss } && delta
                        as int == p - i && ss == segs_model(segs@),
                decreases len - p,
            {
                if p >= len || s[p] != 46 {
                    proof {
                        assert(spec_path_more(s@, p as int) == (
                            0nat,
                            Seq::<Seq<u8>>::empty(),
                        ));
                        assert(segs_model(segs@) + Seq::<Seq<u8>>::empty() =~= segs_model(segs@));
                    }
                    break ;
                }
                match segment_at(s, p + 1) {
                    SegStep::Done { next, segment } => {
                        proof {
                            let more = spec_path_more(s@, p as int);
                            let rest = spec_path_more(s@, next as int);
                            assert(more.0 == (next - p) + rest.0);
                            assert(more.1 == seq![segment@] + rest.1);
                            assert(segs_model(segs@.push(segment)) =~= segs_model(segs@).push(
                                segment@,
                            ));
                            assert((segs_model(segs@) + seq![segment@]) + rest.1 =~= segs_model(
                                segs@,
                            ) + (seq![segment@] + rest.1));
                            assert(segs_model(segs@).push(segment@) =~= segs_model(segs@)
                                + seq![segment@]);
                        }
                        segs.push(segment);
                        p = next;
                    },
                    SegStep::Fail => {
                        proof {
                            assert(spec_path_more(s@, p as int) == (
                                0nat,
                                Seq::<Seq<u8>>::empty(),
                            ));
                            assert(segs_model(segs@) + Seq::<Seq<u8>>::empty() =~= segs_model(
                                segs@,
                            ));
                        }
                        break ;
                    },
                    SegStep::Incomplete => {
                        proof {
                            assert(spec_path_more(s@, p as int) == (
                                0nat,
                                Seq::<Seq<u8>>::empty(),
                            ));
                            assert(segs_model(segs@) + Seq::<Seq<u8>>::empty() =~= segs_model(
                                segs@,
                            ));
                        }
                        break ;
                    },
                }
            }
            PathStep::Done { next: p, segments: segs }
        },
    }
}

/// Expand a path and value into a chain of single-key objects, the
/// first segment outermost.
#[verifier::loop_isolation(false)]
pub fn build_chain(segments: Vec<Vec<u8>>, value: Value) -> (r: Value)
    requires
        wf(value),
    ensures
        r@ == spec_chain(segs_model(segments@), value@),
        wf(r),
{
    let ghost segs0 = segs_model(segments@);
    let ghost v0 = value@;
    let ghost n = segs0.len();
    let mut segs = segments;
    let mut cur = value;
    while segs.len() > 0
        invariant
            segs@.len() <= n == segs0.len(),
            segs_model(segs@) == segs0.subrange(0, segs@.len() as int),
            cur@ == spec_chain(segs0.subrange(segs@.len() as int, n as int), v0),
            wf(cur),
        decreases segs@.len(),
    {
        let ghost j = segs@.len() as int;
        let ghost olds = segs@;
        let seg = match segs.pop() {
            Option::Some(seg) => seg,
            Option::None => {
                proof {
                    assert(false);
                }
                Vec::new()
            },
        };
        proof {
            assert(segs_model(olds)[j - 1] == olds[j - 1]@);
            assert(segs_model(olds)[j - 1] == segs0.subrange(0, j)[j - 1]);
            assert(seg@ == segs0[j - 1]);
            assert(segs_model(segs@) =~= segs0.subrange(0, j - 1));
        }
        let mut entries: Vec<(Vec<u8>, Value)> = Vec::new();
        let ghost gcur = cur@;
        entries.push((seg, cur));
        proof {
            assert(entries@ =~= Seq::<(Vec<u8>, Value)>::empty().push((seg, cur)));
            assert(entries@[0].0@ == seg@ && entries@[0].1 == cur);
            assert(entries@.drop_first() =~= Seq::<(Vec<u8>, Value)>::empty());
            assert(crate::value::assoc_model(Seq::<(Vec<u8>, Value)>::empty())
                =~= Map::<Seq<u8>, SpecValue>::empty());
            assert(crate::value::assoc_model(entries@) =~= Map::<Seq<u8>, SpecValue>::empty().insert(
                segs0[j - 1],
                gcur,
            ));
            let suffix = segs0.subrange(j - 1, n as int);
            assert(suffix[0] == segs0[j - 1]);
            assert(suffix.drop_first() =~= segs0.subrange(j as int, n as int));
        }
        cur = Value::Object(entries);
    }
    proof {
        assert(segs0.subrange(0, n as int) =~= segs0);
    }
    cur
}

/// One object entry: a path followed either directly by a braced
/// object or by a `:` or `=` separator and a value.
#[verifier::loop_isolation(false)]
pub fn entry_at(s: &[u8], i: usize) -> (r: EntryStep)
    requires
        i <= s@.len(),
    ensures
        ({
            match spec_entry(s@, i as int) {
                SpecEntry::Done { delta, segs, v } => r matches EntryStep::Done {
                    next,
                    segments,
                    value,
                } && next as int == i + delta && segs_model(segments@) == segs && value@ == v
                    && wf(value) && i < next <= s@.len(),
                SpecEntry::Fail => r is Fail,
                SpecEntry::Incomplete => r is Incomplete,
            }
        }),
    decreases s@.len() - i, 1int,
{
    let len = s.len();
    match json_object_path(s, i) {
        PathStep::Fail => EntryStep::Fail,
        PathStep::Incomplete => EntryStep::Incomplete,
        PathStep::Done { next: pnext, segments } => {
            let j = json_whitespace(s, pnext);
            if j >= len {
                return EntryStep::Incomplete;
            }
            if s[j] == 123 {
                match object_at(s, j) {
                    ObjStep::Done { next, value } => EntryStep::Done { next, segments, value },
                    ObjStep::Incomplete => EntryStep::Incomplete,
                    ObjStep::Fail => EntryStep::Fail,
                }
            } else if s[j] == 58 || s[j] == 61 {
                let j2 = json_whitespace(s, j + 1);
                match json_value(s, j2) {
                    ParseStep::Done { next, value } => EntryStep::Done { next, segments, value },
                    ParseStep::Fail => EntryStep::Fail,
                }
            } else {
                EntryStep::Fail
            }
        },
    }
}

/// The object body: entries separated by the inferred-comma rule, each
/// expanded into a chain and deep-merged into the accumulating object.
/// Never fails; an absent first entry means an empty object.
pub fn body_at(s: &[u8], i: usize) -> (r: (usize, Value))
    requires
        i <= s@.len(),
    ensures
        r.0 as int == i + spec_body(s@, i as int).0,
        r.1@ == spec_body(s@, i as int).1,
        wf(r.1),
        i <= r.0 <= s@.len(),
    decreases s@.len() - i, 4int,
{
    let len = s.len();
    let mut acc: Value = Value::Object(Vec::new());
    proof {
        assert(crate::value::assoc_model(Seq::<(Vec<u8>, Value)>::empty())
            =~= Map::<Seq<u8>, SpecValue>::empty());
        assert(acc@ == SpecValue::Obj(Map::<Seq<u8>, SpecValue>::empty()));
    }
    match entry_at(s, i) {
        EntryStep::Done { next, segments, value } => {
            proof {
                let entries = spec_entries(s@, i as int);
                let more = spec_entries_more(s@, next as int);
                assert(entries.1 == seq![(segs_model(segments@), value@)] + more.1);
                assert((seq![(segs_model(segments@), value@)] + more.1).drop_first() =~= more.1);
            }
            let chain = build_chain(segments, value);
            acc = merge_json(acc, chain);
            let mut p = next;
            loop
                invariant
                    i < p <= len,
                    len == s@.len(),
                    wf(acc),
                    spec_body(s@, i as int).0 == (p - i) + spec_entries_more(s@, p as int).0,
                    spec_body(s@, i as int).1 == spec_fold_entries(
                        spec_entries_more(s@, p as int).1,
                        acc@,
                    ),
                ensures
                    i < p <= len,
                    wf(acc),
                    spec_body(s@, i as int).0 == p - i,
                    spec_body(s@, i as int).1 == acc@,
                decreases len - p,
            {
                let stop: bool;
                match inferrable_comma(s, p) {
                    Option::None => {
                        stop = true;
                    },
                    Option::Some(q) => {
                        match entry_at(s, q) {
                            EntryStep::Done { next, segments, value } => {
                                proof {
                                    let more = spec_entries_more(s@, p as int);
                                    let rest = spec_entries_more(s@, next as int);
                                    assert(more.0 == (next - p) + rest.0);
                                    assert(more.1 == seq![(segs_model(segments@), value@)]
                                        + rest.1);
                                    assert((seq![(segs_model(segments@), value@)]
                                        + rest.1).drop_first() =~= rest.1);
                                }
                                let chain = build_chain(segments, value);
                                acc = merge_json(acc, chain);
                                p = next;
                                stop = false;
                            },
                            _ => {
                                stop = true;
                            },
                        }
                    },
                }
                if stop {
                    proof {
                        assert(spec_entries_more(s@, p as int) == (
                            0nat,
                            Seq::<(Seq<Seq<u8>>, SpecValue)>::empty(),
                        ));
                    }
                    break ;
                }
            }
            (p, acc)
        },
        EntryStep::Fail => (i, acc),
        EntryStep::Incomplete => (i, acc),
    }
}

/// The root rule: leading whitespace, a brace-delimited object or a
/// bare object body, trailing whitespace. A bare body always yields an
/// object, so the root never hard-fails; an unclosed top-level brace,
/// or input that ends after only whitespace, is incomplete.
#[verifier::loop_isolation(false)]
pub fn json_value_root(s: &[u8]) -> (r: RootStep)
    ensures
        ({
            match spec_root(s@) {
                SpecRoot::Done { end, v } => r matches RootStep::Done { next, value } && next
                    as int == end && value@ == v && wf(value) && next <= s@.len(),
                SpecRoot::Incomplete => r is Incomplete,
            }
        }),
{
    let dw = json_whitespace(s, 0);
    match object_at(s, dw) {
        ObjStep::Done { next, value } => {
            let e = json_whitespace(s, next);
            RootStep::Done { next: e, value }
        },
        ObjStep::Incomplete => RootStep::Incomplete,
        ObjStep::Fail => {
            let (p, value) = body_at(s, dw);
            let e = json_whitespace(s, p);
            RootStep::Done { next: e, value }
        },
    }
}

} // verus!

