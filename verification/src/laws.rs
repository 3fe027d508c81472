//! Laws of the library, stated and proved over the specification
//! grammar and model.

use vstd::prelude::*;

use crate::agree::lemma_body_agree;
use crate::agree::lemma_entry_swap;
use crate::agree::sep_swap_eq;
use crate::agree::lemma_object_agree;
use crate::agree::lemma_tail_eq_shift;
use crate::agree::lemma_ws_agree;
use crate::agree::lemma_ws_bound;
use crate::agree::tail_eq;
use crate::grammar::SpecObj;
use crate::grammar::SpecOutcome;
use crate::grammar::SpecPath;
use crate::grammar::spec_body;
use crate::grammar::spec_chain;
use crate::grammar::spec_entry;
use crate::grammar::spec_object;
use crate::grammar::spec_parse;
use crate::grammar::spec_path;
use crate::grammar::spec_ws;
use crate::grammar::spec_ws_scan;
use crate::model::SpecValue;
use crate::model::spec_merge;
use crate::query::SpecGet;
use crate::query::spec_get;
use crate::query::spec_lookup;

verus! {

/// Whether the bytes from `i` on are nothing but whitespace and
/// comments, with every comment closed by a newline before the text
/// ends; `in_comment` is the scanning state inside a comment run.
/// Such text cannot swallow what follows it.
pub open spec fn spec_ws_text_scan(w: Seq<u8>, i: int, in_comment: bool) -> bool
    decreases w.len() - i,
{
    if i < 0 {
        false
    } else if i >= w.len() {
        !in_comment
    } else if in_comment {
        if w[i] == 10 {
            spec_ws_text_scan(w, i + 1, false)
        } else {
            spec_ws_text_scan(w, i + 1, true)
        }
    } else if w[i] == 32 || w[i] == 9 || w[i] == 10 {
        spec_ws_text_scan(w, i + 1, false)
    } else if w[i] == 35 {
        spec_ws_text_scan(w, i + 1, true)
    } else if w[i] == 47 && i + 1 < w.len() && w[i + 1] == 47 {
        spec_ws_text_scan(w, i + 2, true)
    } else {
        false
    }
}

/// Whole-text whitespace: spaces, tabs, newlines, and comments each
/// closed by a newline before the end.
pub open spec fn is_ws_text(w: Seq<u8>) -> bool {
    spec_ws_text_scan(w, 0, false)
}

/// Scanning whitespace text prepended to any input consumes exactly
/// that text and then scans the input from its start.
proof fn lemma_ws_text_skip(w: Seq<u8>, s: Seq<u8>, i: int, in_comment: bool)
    requires
        0 <= i <= w.len(),
        spec_ws_text_scan(w, i, in_comment),
    ensures
        spec_ws_scan(w + s, i, in_comment) == (w.len() - i) + spec_ws(s, 0),
    decreases w.len() - i,
{
    let c = w + s;
    if i == w.len() {
        assert(tail_eq(c, i, s, 0)) by {
            assert forall|k: int| 0 <= k && i + k < c.len() implies c[i + k] == #[trigger] s[0
                + k] by {
                assert(c[w.len() + k] == s[k]);
            }
        }
        lemma_ws_agree(c, i, s, 0, in_comment);
        assert(!in_comment);
    } else {
        assert(c[i] == w[i]);
        if i + 1 < w.len() {
            assert(c[i + 1] == w[i + 1]);
        }
        if in_comment {
            lemma_ws_text_skip(w, s, i + 1, w[i] != 10);
        } else if w[i] == 32 || w[i] == 9 || w[i] == 10 {
            lemma_ws_text_skip(w, s, i + 1, false);
        } else if w[i] == 35 {
            lemma_ws_text_skip(w, s, i + 1, true);
        } else {
            assert(w[i] == 47 && i + 1 < w.len() && w[i + 1] == 47);
            assert(c[i + 1] == w[i + 1]);
            lemma_ws_text_skip(w, s, i + 2, true);
        }
    }
}

/// Whitespace insensitivity at the document edges. Prepending any
/// whitespace-and-comment text to a document leaves the parsed value
/// unchanged: a successful parse stays successful with the same value,
/// incomplete input stays incomplete, and leftover input is still
/// reported, at the offset shifted by the added text.
#[verifier::rlimit(100)]
pub proof fn lemma_leading_whitespace(w: Seq<u8>, s: Seq<u8>)
    requires
        is_ws_text(w),
    ensures
        ({
            match spec_parse(s) {
                SpecOutcome::Parsed(m) => spec_parse(w + s) == SpecOutcome::Parsed(m),
                SpecOutcome::IncompleteInput => spec_parse(w + s) == SpecOutcome::IncompleteInput,
                SpecOutcome::ExtraInput(k) => spec_parse(w + s) == SpecOutcome::ExtraInput(
                    k + w.len(),
                ),
            }
        }),
{
    let c = w + s;
    lemma_ws_text_skip(w, s, 0, false);
    let dw = spec_ws(s, 0);
    lemma_ws_bound(s, 0, false);
    assert(spec_ws(c, 0) == w.len() + dw);
    let p = (w.len() + dw) as int;
    assert(tail_eq(c, p, s, dw as int)) by {
        assert forall|k: int| 0 <= k && p + k < c.len() implies c[p + k] == #[trigger] s[dw
            + k] by {
            assert(c[w.len() + (dw + k)] == s[dw + k]);
        }
    }
    lemma_object_agree(c, p, s, dw as int);
    match spec_object(s, dw as int) {
        SpecObj::Done { delta, v } => {
            lemma_tail_eq_shift(c, p, s, dw as int, delta as int);
            lemma_ws_agree(c, p + delta, s, (dw + delta) as int, false);
        },
        SpecObj::Incomplete => {},
        SpecObj::Fail => {
            lemma_body_agree(c, p, s, dw as int);
            let db = spec_body(s, dw as int).0;
            lemma_tail_eq_shift(c, p, s, dw as int, db as int);
            lemma_ws_agree(c, p + db, s, (dw + db) as int, false);
        },
    }
}

/// Separator equivalence. A key/value entry parses identically
/// whether its separator is written `:` or `=`: take two inputs equal
/// everywhere except at the one position where the first holds `:`
/// and the second `=`, that position being where the entry's
/// separator stands (just after its path and the following
/// whitespace). Then the entry yields the same path, the same value,
/// and consumes the same extent on both inputs.
pub proof fn lemma_separator_equivalence(a: Seq<u8>, b: Seq<u8>, j: int, i: int)
    requires
        sep_swap_eq(a, b, j),
        0 <= i,
        spec_path(a, i) is Done,
        i + spec_path(a, i)->Done_delta + spec_ws(a, i + spec_path(a, i)->Done_delta) == j,
    ensures
        spec_entry(b, i) == spec_entry(a, i),
{
    lemma_entry_swap(a, b, j, i);
}

/// Comma inference. Between two elements, a single newline acts
/// exactly as a single comma: with two inputs equal everywhere except
/// at one position holding a newline in the first and a comma in the
/// second, and with the element boundary right after it, the
/// inferred-comma rule succeeds on both, consuming exactly that byte.
pub proof fn lemma_comma_inference(a: Seq<u8>, b: Seq<u8>, i: int)
    requires
        a.len() == b.len(),
        0 <= i < a.len(),
        a[i] == 10,
        b[i] == 44,
        forall|k: int| 0 <= k < a.len() && k != i ==> a[k] == #[trigger] b[k],
        i + 1 < a.len() ==> !(a[i + 1] == 32 || a[i + 1] == 9 || a[i + 1] == 10 || a[i + 1] == 35
            || a[i + 1] == 44) && !(a[i + 1] == 47 && i + 2 < a.len() && a[i + 2] == 47),
    ensures
        crate::grammar::spec_sep(a, i) == (1nat, true),
        crate::grammar::spec_sep(b, i) == (1nat, true),
{
    if i + 1 < a.len() {
        assert(a[i + 1] == b[i + 1]);
        if a[i + 1] == 47 && i + 2 < a.len() {
            assert(a[i + 2] == b[i + 2]);
        }
    }
    assert(crate::grammar::spec_sep_scan(a, i + 1, true, false, false) == (0nat, true));
    assert(crate::grammar::spec_sep_scan(b, i + 1, false, true, false) == (0nat, true));
    assert(crate::grammar::spec_sep(a, i) == (1nat, true));
    assert(crate::grammar::spec_sep(b, i) == (1nat, true));
}

/// Merge precedence. Merging two objects yields an object whose keys
/// are the union of both key sets: a key only in the base keeps the
/// base's value, a key only in the overlay takes the overlay's value,
/// and a key in both is merged recursively with the overlay on top —
/// so where the nested values are not both objects, the overlay's
/// value wins at that key.
pub proof fn lemma_merge_precedence(
    base: Map<Seq<u8>, SpecValue>,
    overlay: Map<Seq<u8>, SpecValue>,
)
    ensures
        spec_merge(SpecValue::Obj(base), SpecValue::Obj(overlay)) is Obj,
        forall|k: Seq<u8>|
            spec_merge(SpecValue::Obj(base), SpecValue::Obj(overlay))->Obj_0.dom().contains(k)
                <==> (base.dom().contains(k) || #[trigger] overlay.dom().contains(k)),
        forall|k: Seq<u8>|
            base.dom().contains(k) && !overlay.dom().contains(k) ==> spec_merge(
                SpecValue::Obj(base),
                SpecValue::Obj(overlay),
            )->Obj_0[k] == #[trigger] base[k],
        forall|k: Seq<u8>|
            !base.dom().contains(k) && overlay.dom().contains(k) ==> spec_merge(
                SpecValue::Obj(base),
                SpecValue::Obj(overlay),
            )->Obj_0[k] == #[trigger] overlay[k],
        forall|k: Seq<u8>|
            base.dom().contains(k) && overlay.dom().contains(k) ==> spec_merge(
                SpecValue::Obj(base),
                SpecValue::Obj(overlay),
            )->Obj_0[k] == spec_merge(base[k], #[trigger] overlay[k]),
        forall|k: Seq<u8>|
            base.dom().contains(k) && overlay.dom().contains(k) && !(base[k] is Obj
                && overlay[k] is Obj) ==> spec_merge(
                SpecValue::Obj(base),
                SpecValue::Obj(overlay),
            )->Obj_0[k] == #[trigger] overlay[k],
{
    assert forall|k: Seq<u8>|
        base.dom().contains(k) && overlay.dom().contains(k) && !(base[k] is Obj
            && overlay[k] is Obj) implies spec_merge(
        SpecValue::Obj(base),
        SpecValue::Obj(overlay),
    )->Obj_0[k] == overlay[k] by {
        assert(spec_merge(base[k], overlay[k]) == overlay[k]);
    }
}

/// Merging anything that is not two objects lets the overlay replace
/// the base outright: scalars, arrays and type mismatches never
/// combine.
pub proof fn lemma_merge_overlay_wins(base: SpecValue, overlay: SpecValue)
    requires
        !(base is Obj && overlay is Obj),
    ensures
        spec_merge(base, overlay) == overlay,
{
}

/// Round-trip lookup. A value written under a path and expanded into
/// its chain of single-key objects is found again by walking the same
/// path: writing `path = value` and reading `path` gives back exactly
/// `value`.
pub proof fn lemma_chain_lookup(segs: Seq<Seq<u8>>, v: SpecValue)
    ensures
        spec_lookup(spec_chain(segs, v), segs) == Option::Some(v),
    decreases segs.len(),
{
    if segs.len() > 0 {
        lemma_chain_lookup(segs.drop_first(), v);
        let m = Map::<Seq<u8>, SpecValue>::empty().insert(
            segs[0],
            spec_chain(segs.drop_first(), v),
        );
        assert(m.dom().contains(segs[0]));
        assert(m[segs[0]] == spec_chain(segs.drop_first(), v));
    }
}

/// Round-trip lookup through a path expression: for any path text that
/// the path grammar consumes in full, looking the same text up in the
/// document built from `path = value` yields exactly `value`.
pub proof fn lemma_round_trip_get(p: Seq<u8>, v: SpecValue)
    requires
        spec_path(p, 0) matches SpecPath::Done { delta, segs } && delta == p.len(),
    ensures
        spec_get(spec_chain(spec_path(p, 0)->Done_segs, v), p) == SpecGet::Found(v),
{
    let segs = spec_path(p, 0)->Done_segs;
    lemma_chain_lookup(segs, v);
}

} // verus!
