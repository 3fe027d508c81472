//! Every grammar rule reads only the bytes at and after its cursor:
//! two inputs with the same tail parse the same way. These lemmas
//! carry the whitespace-insensitivity law in `laws`.

use vstd::prelude::*;

use crate::grammar::SpecEsc;
use crate::grammar::is_unquoted_break;
use crate::grammar::rem;
use crate::grammar::spec_array;
use crate::grammar::spec_body;
use crate::grammar::spec_digits_len;
use crate::grammar::spec_digits_val;
use crate::grammar::spec_entries;
use crate::grammar::spec_entries_more;
use crate::grammar::spec_entry;
use crate::grammar::spec_escaped;
use crate::grammar::spec_exp_len;
use crate::grammar::spec_find_triple;
use crate::grammar::spec_float_len;
use crate::grammar::spec_int;
use crate::grammar::spec_items;
use crate::grammar::spec_items_more;
use crate::grammar::spec_object;
use crate::grammar::spec_path;
use crate::grammar::spec_path_more;
use crate::grammar::spec_segment;
use crate::grammar::spec_sep;
use crate::grammar::spec_sep_scan;
use crate::grammar::spec_sign_len;
use crate::grammar::spec_string;
use crate::grammar::spec_tag_false;
use crate::grammar::spec_tag_null;
use crate::grammar::spec_tag_true;
use crate::grammar::spec_unquoted_len;
use crate::grammar::spec_value;
use crate::grammar::spec_ws;
use crate::grammar::spec_ws_scan;

verus! {

/// The tails of `a` from `i` and of `b` from `j` are the same bytes.
pub open spec fn tail_eq(a: Seq<u8>, i: int, b: Seq<u8>, j: int) -> bool {
    &&& 0 <= i
    &&& 0 <= j
    &&& a.len() - i == b.len() - j
    &&& forall|k: int| 0 <= k && i + k < a.len() ==> a[i + k] == #[trigger] b[j + k]
}

/// Tail equality survives moving both cursors forward together.
pub proof fn lemma_tail_eq_shift(a: Seq<u8>, i: int, b: Seq<u8>, j: int, d: int)
    requires
        tail_eq(a, i, b, j),
        d >= 0,
    ensures
        tail_eq(a, i + d, b, j + d),
{
    assert forall|k: int| 0 <= k && i + d + k < a.len() implies a[i + d + k] == #[trigger] b[j + d
        + k] by {
        assert(a[i + (d + k)] == b[j + (d + k)]);
    }
}

/// Equal tails have equal subranges.
pub proof fn lemma_tail_eq_subrange(a: Seq<u8>, i: int, b: Seq<u8>, j: int, n: int)
    requires
        tail_eq(a, i, b, j),
        0 <= n,
        i + n <= a.len(),
    ensures
        a.subrange(i, i + n) == b.subrange(j, j + n),
{
    assert forall|k: int| 0 <= k < n implies #[trigger] a.subrange(i, i + n)[k] == b.subrange(
        j,
        j + n,
    )[k] by {
        assert(a[i + k] == b[j + k]);
    }
    assert(a.subrange(i, i + n) =~= b.subrange(j, j + n));
}

/// Whitespace scanning never runs past the end of the input.
pub proof fn lemma_ws_bound(s: Seq<u8>, i: int, c: bool)
    requires
        0 <= i <= s.len(),
    ensures
        i + spec_ws_scan(s, i, c) <= s.len(),
    decreases s.len() - i,
{
    if i < s.len() {
        lemma_ws_bound(s, i + 1, true);
        lemma_ws_bound(s, i + 1, false);
        if i + 2 <= s.len() {
            lemma_ws_bound(s, i + 2, true);
        }
    }
}

/// An unquoted token never runs past the end of the input.
pub proof fn lemma_unquoted_bound(s: Seq<u8>, i: int, allow_dot: bool)
    requires
        0 <= i <= s.len(),
    ensures
        i + spec_unquoted_len(s, i, allow_dot) <= s.len(),
    decreases s.len() - i,
{
    if i < s.len() {
        lemma_unquoted_bound(s, i + 1, allow_dot);
    }
}

/// A digit run never runs past the end of the input.
pub proof fn lemma_digits_bound(s: Seq<u8>, i: int)
    requires
        0 <= i <= s.len(),
    ensures
        i + spec_digits_len(s, i) <= s.len(),
    decreases s.len() - i,
{
    if i < s.len() {
        lemma_digits_bound(s, i + 1);
    }
}

/// A found closing triple quote lies within the input.
pub proof fn lemma_find_triple_bound(s: Seq<u8>, i: int)
    requires
        0 <= i,
        spec_find_triple(s, i) is Some,
    ensures
        i + spec_find_triple(s, i)->0 + 3 <= s.len(),
    decreases s.len() - i,
{
    if !(i + 3 > s.len()) && !(s[i] == 34 && s[i + 1] == 34 && s[i + 2] == 34) {
        lemma_find_triple_bound(s, i + 1);
    }
}

/// An exponent part never runs past the end of the input.
pub proof fn lemma_exp_bound(s: Seq<u8>, m: int)
    requires
        0 <= m <= s.len(),
    ensures
        m + spec_exp_len(s, m) <= s.len(),
{
    if m < s.len() && (s[m] == 101 || s[m] == 69) {
        let sl = spec_sign_len(s, m + 1);
        lemma_digits_bound(s, m + 1 + sl);
    }
}

/// A float literal never runs past the end of the input.
pub proof fn lemma_float_bound(s: Seq<u8>, i: int)
    requires
        0 <= i <= s.len(),
        spec_float_len(s, i) is Some,
    ensures
        i + spec_float_len(s, i)->0 <= s.len(),
{
    let sl = spec_sign_len(s, i);
    lemma_digits_bound(s, i + sl);
    let n1 = spec_digits_len(s, i + sl);
    let p = i + sl + n1;
    if 0 <= p && p < s.len() && s[p] == 46 {
        lemma_digits_bound(s, p + 1);
        let n2 = spec_digits_len(s, p + 1);
        lemma_exp_bound(s, p + 1 + n2);
    } else {
        lemma_exp_bound(s, p);
    }
}

/// Whitespace scanning reads only the tail.
pub proof fn lemma_ws_agree(a: Seq<u8>, i: int, b: Seq<u8>, j: int, c: bool)
    requires
        tail_eq(a, i, b, j),
    ensures
        spec_ws_scan(a, i, c) == spec_ws_scan(b, j, c),
    decreases a.len() - i,
{
    if i < a.len() {
        assert(a[i + 0] == b[j + 0]);
        if i + 1 < a.len() {
            assert(a[i + 1] == b[j + 1]);
        }
        lemma_tail_eq_shift(a, i, b, j, 1);
        lemma_ws_agree(a, i + 1, b, j + 1, true);
        lemma_ws_agree(a, i + 1, b, j + 1, false);
        if i + 2 <= a.len() {
            lemma_tail_eq_shift(a, i, b, j, 2);
            lemma_ws_agree(a, i + 2, b, j + 2, true);
        }
    }
}

/// Separator scanning reads only the tail.
pub proof fn lemma_sep_agree(a: Seq<u8>, i: int, b: Seq<u8>, j: int, nl: bool, cm: bool, c: bool)
    requires
        tail_eq(a, i, b, j),
    ensures
        spec_sep_scan(a, i, nl, cm, c) == spec_sep_scan(b, j, nl, cm, c),
    decreases a.len() - i,
{
    if i < a.len() {
        assert(a[i + 0] == b[j + 0]);
        if i + 1 < a.len() {
            assert(a[i + 1] == b[j + 1]);
        }
        lemma_tail_eq_shift(a, i, b, j, 1);
        lemma_sep_agree(a, i + 1, b, j + 1, true, cm, false);
        lemma_sep_agree(a, i + 1, b, j + 1, nl, cm, true);
        lemma_sep_agree(a, i + 1, b, j + 1, nl, cm, false);
        lemma_sep_agree(a, i + 1, b, j + 1, nl, true, false);
        if i + 2 <= a.len() {
            lemma_tail_eq_shift(a, i, b, j, 2);
            lemma_sep_agree(a, i + 2, b, j + 2, nl, cm, true);
        }
    }
}

/// Unquoted-token scanning reads only the tail.
pub proof fn lemma_unquoted_agree(a: Seq<u8>, i: int, b: Seq<u8>, j: int, allow_dot: bool)
    requires
        tail_eq(a, i, b, j),
    ensures
        spec_unquoted_len(a, i, allow_dot) == spec_unquoted_len(b, j, allow_dot),
    decreases a.len() - i,
{
    if i < a.len() {
        assert(a[i + 0] == b[j + 0]);
        if i + 1 < a.len() {
            assert(a[i + 1] == b[j + 1]);
        }
        lemma_tail_eq_shift(a, i, b, j, 1);
        lemma_unquoted_agree(a, i + 1, b, j + 1, allow_dot);
    }
}

/// Digit scanning reads only the tail.
pub proof fn lemma_digits_agree(a: Seq<u8>, i: int, b: Seq<u8>, j: int)
    requires
        tail_eq(a, i, b, j),
    ensures
        spec_digits_len(a, i) == spec_digits_len(b, j),
    decreases a.len() - i,
{
    if i < a.len() {
        assert(a[i + 0] == b[j + 0]);
        lemma_tail_eq_shift(a, i, b, j, 1);
        lemma_digits_agree(a, i + 1, b, j + 1);
    }
}

/// Digit values read only the tail.
pub proof fn lemma_digits_val_agree(a: Seq<u8>, i: int, b: Seq<u8>, j: int, n: nat)
    requires
        tail_eq(a, i, b, j),
        i + n <= a.len(),
    ensures
        spec_digits_val(a, i, n) == spec_digits_val(b, j, n),
    decreases n,
{
    if n > 0 {
        lemma_digits_val_agree(a, i, b, j, (n - 1) as nat);
        assert(a[i + (n - 1)] == b[j + (n - 1)]);
    }
}

/// The escape scan reads only the tail.
pub proof fn lemma_escaped_agree(a: Seq<u8>, i: int, b: Seq<u8>, j: int)
    requires
        tail_eq(a, i, b, j),
    ensures
        spec_escaped(a, i) == spec_escaped(b, j),
    decreases a.len() - i,
{
    if i < a.len() {
        assert(a[i + 0] == b[j + 0]);
        if i + 1 < a.len() {
            assert(a[i + 1] == b[j + 1]);
        }
        lemma_tail_eq_shift(a, i, b, j, 1);
        lemma_escaped_agree(a, i + 1, b, j + 1);
        if i + 2 <= a.len() {
            lemma_tail_eq_shift(a, i, b, j, 2);
            lemma_escaped_agree(a, i + 2, b, j + 2);
        }
    }
}

/// The search for a closing triple quote reads only the tail.
pub proof fn lemma_find_triple_agree(a: Seq<u8>, i: int, b: Seq<u8>, j: int)
    requires
        tail_eq(a, i, b, j),
    ensures
        spec_find_triple(a, i) == spec_find_triple(b, j),
    decreases a.len() - i,
{
    if !(i + 3 > a.len()) {
        assert(a[i + 0] == b[j + 0]);
        assert(a[i + 1] == b[j + 1]);
        assert(a[i + 2] == b[j + 2]);
        lemma_tail_eq_shift(a, i, b, j, 1);
        lemma_find_triple_agree(a, i + 1, b, j + 1);
    }
}

/// The sign, integer, exponent and float rules read only the tail.
#[verifier::rlimit(50)]
pub proof fn lemma_number_agree(a: Seq<u8>, i: int, b: Seq<u8>, j: int)
    requires
        tail_eq(a, i, b, j),
    ensures
        spec_sign_len(a, i) == spec_sign_len(b, j),
        spec_int(a, i) == spec_int(b, j),
        spec_exp_len(a, i) == spec_exp_len(b, j),
        spec_float_len(a, i) == spec_float_len(b, j),
    decreases 0int,
{
    if 0 <= i && i < a.len() {
        assert(a[i + 0] == b[j + 0]);
    }
    lemma_sign_exp_agree(a, i, b, j);
    let sl = spec_sign_len(a, i);
    lemma_tail_eq_shift(a, i, b, j, sl as int);
    lemma_digits_agree(a, i + sl, b, j + sl);
    let nd = spec_digits_len(a, i + sl);
    if i + sl <= a.len() {
        lemma_digits_bound(a, i + sl);
        lemma_digits_val_agree(a, i + sl, b, j + sl, nd);
    } else {
        assert(nd == 0);
        assert(spec_digits_val(a, i + sl, 0) == 0 && spec_digits_val(b, j + sl, 0) == 0);
    }
    // float: the position after sign and digits
    let p = i + sl + nd;
    let q = j + sl + nd;
    lemma_tail_eq_shift(a, i, b, j, (sl + nd) as int);
    if 0 <= p && p < a.len() && a[p] == 46 {
        lemma_tail_eq_shift(a, p, b, q, 1);
        lemma_digits_agree(a, p + 1, b, q + 1);
        let n2 = spec_digits_len(a, p + 1);
        lemma_tail_eq_shift(a, i, b, j, (sl + nd + 1 + n2) as int);
        lemma_sign_exp_agree(a, i + sl + nd + 1 + n2, b, j + sl + nd + 1 + n2);
    } else {
        lemma_sign_exp_agree(a, p, b, q);
    }
}

/// The exponent rule reads only the tail (with its inner sign).
pub proof fn lemma_sign_exp_agree(a: Seq<u8>, i: int, b: Seq<u8>, j: int)
    requires
        tail_eq(a, i, b, j),
    ensures
        spec_sign_len(a, i) == spec_sign_len(b, j),
        spec_exp_len(a, i) == spec_exp_len(b, j),
{
    if 0 <= i && i < a.len() {
        assert(a[i + 0] == b[j + 0]);
    }
    if 0 <= i + 1 && i + 1 < a.len() {
        assert(a[i + 1] == b[j + 1]);
    }
    lemma_tail_eq_shift(a, i, b, j, 1);
    if 0 <= i && i < a.len() && (a[i] == 101 || a[i] == 69) {
        let sl = spec_sign_len(a, i + 1);
        lemma_tail_eq_shift(a, i, b, j, (1 + sl) as int);
        lemma_digits_agree(a, i + 1 + sl, b, j + 1 + sl);
    }
}

/// The keyword tags read only the tail.
pub proof fn lemma_tags_agree(a: Seq<u8>, i: int, b: Seq<u8>, j: int)
    requires
        tail_eq(a, i, b, j),
    ensures
        spec_tag_null(a, i) == spec_tag_null(b, j),
        spec_tag_true(a, i) == spec_tag_true(b, j),
        spec_tag_false(a, i) == spec_tag_false(b, j),
{
    if 0 <= i {
        if i + 4 <= a.len() {
            assert(a[i + 0] == b[j + 0]);
            assert(a[i + 1] == b[j + 1]);
            assert(a[i + 2] == b[j + 2]);
            assert(a[i + 3] == b[j + 3]);
        }
        if i + 5 <= a.len() {
            assert(a[i + 4] == b[j + 4]);
        }
    }
}

/// The string rule reads only the tail.
#[verifier::rlimit(50)]
pub proof fn lemma_string_agree(a: Seq<u8>, i: int, b: Seq<u8>, j: int)
    requires
        tail_eq(a, i, b, j),
    ensures
        spec_string(a, i) == spec_string(b, j),
{
    if 0 <= i {
        if i < a.len() {
            assert(a[i + 0] == b[j + 0]);
        }
        if i + 1 < a.len() {
            assert(a[i + 1] == b[j + 1]);
        }
        if i + 2 < a.len() {
            assert(a[i + 2] == b[j + 2]);
        }
    }
    lemma_tail_eq_shift(a, i, b, j, 3);
    lemma_find_triple_agree(a, i + 3, b, j + 3);
    if spec_find_triple(a, i + 3) is Some {
        let d = spec_find_triple(a, i + 3)->0;
        lemma_find_triple_bound(a, i + 3);
        if 0 <= i {
            lemma_tail_eq_shift(a, i, b, j, 3);
            lemma_tail_eq_subrange(a, i + 3, b, j + 3, d as int);
        }
    }
    lemma_tail_eq_shift(a, i, b, j, 1);
    lemma_escaped_agree(a, i + 1, b, j + 1);
    lemma_unquoted_agree(a, i, b, j, true);
    let n = spec_unquoted_len(a, i, true);
    if 0 <= i && i <= a.len() {
        lemma_unquoted_bound(a, i, true);
        lemma_tail_eq_subrange(a, i, b, j, n as int);
    }
}

/// A path segment reads only the tail.
pub proof fn lemma_segment_agree(a: Seq<u8>, i: int, b: Seq<u8>, j: int)
    requires
        tail_eq(a, i, b, j),
    ensures
        spec_segment(a, i) == spec_segment(b, j),
{
    if 0 <= i && i < a.len() {
        assert(a[i + 0] == b[j + 0]);
    }
    lemma_tail_eq_shift(a, i, b, j, 1);
    lemma_escaped_agree(a, i + 1, b, j + 1);
    lemma_unquoted_agree(a, i, b, j, false);
    let n = spec_unquoted_len(a, i, false);
    if 0 <= i && i <= a.len() {
        lemma_unquoted_bound(a, i, false);
        lemma_tail_eq_subrange(a, i, b, j, n as int);
    }
}

/// Further path segments read only the tail.
pub proof fn lemma_path_more_agree(a: Seq<u8>, i: int, b: Seq<u8>, j: int)
    requires
        tail_eq(a, i, b, j),
    ensures
        spec_path_more(a, i) == spec_path_more(b, j),
    decreases rem(a, i), 0int,
{
    if 0 <= i && i < a.len() {
        assert(a[i + 0] == b[j + 0]);
        if a[i] == 46 {
            lemma_tail_eq_shift(a, i, b, j, 1);
            lemma_segment_agree(a, i + 1, b, j + 1);
            match spec_segment(a, i + 1) {
                crate::grammar::SpecSeg::Done { delta, seg } => {
                    lemma_tail_eq_shift(a, i, b, j, (1 + delta) as int);
                    lemma_path_more_agree(a, i + 1 + delta, b, j + 1 + delta);
                },
                _ => {},
            }
        }
    }
}

/// A dotted path reads only the tail.
pub proof fn lemma_path_agree(a: Seq<u8>, i: int, b: Seq<u8>, j: int)
    requires
        tail_eq(a, i, b, j),
    ensures
        spec_path(a, i) == spec_path(b, j),
    decreases rem(a, i), 1int,
{
    lemma_segment_agree(a, i, b, j);
    match spec_segment(a, i) {
        crate::grammar::SpecSeg::Done { delta, seg } => {
            lemma_tail_eq_shift(a, i, b, j, delta as int);
            lemma_path_more_agree(a, i + delta, b, j + delta);
        },
        _ => {},
    }
}

/// The value rule reads only the tail.
#[verifier::rlimit(50)]
pub proof fn lemma_value_agree(a: Seq<u8>, i: int, b: Seq<u8>, j: int)
    requires
        tail_eq(a, i, b, j),
    ensures
        spec_value(a, i) == spec_value(b, j),
    decreases rem(a, i), 1int,
{
    lemma_tags_agree(a, i, b, j);
    lemma_number_agree(a, i, b, j);
    if spec_float_len(a, i) is Some && 0 <= i <= a.len() {
        lemma_float_bound(a, i);
        lemma_tail_eq_subrange(a, i, b, j, spec_float_len(a, i)->0 as int);
    }
    lemma_string_agree(a, i, b, j);
    lemma_array_agree(a, i, b, j);
    lemma_object_agree(a, i, b, j);
}

/// Array elements read only the tail.
pub proof fn lemma_items_agree(a: Seq<u8>, i: int, b: Seq<u8>, j: int)
    requires
        tail_eq(a, i, b, j),
    ensures
        spec_items(a, i) == spec_items(b, j),
    decreases rem(a, i), 3int,
{
    lemma_value_agree(a, i, b, j);
    match spec_value(a, i) {
        Option::Some((d, v)) => {
            lemma_tail_eq_shift(a, i, b, j, d as int);
            lemma_items_more_agree(a, i + d, b, j + d);
        },
        Option::None => {},
    }
}

/// Further array elements read only the tail.
pub proof fn lemma_items_more_agree(a: Seq<u8>, i: int, b: Seq<u8>, j: int)
    requires
        tail_eq(a, i, b, j),
    ensures
        spec_items_more(a, i) == spec_items_more(b, j),
    decreases rem(a, i), 2int,
{
    lemma_sep_agree(a, i, b, j, false, false, false);
    let sep = spec_sep(a, i);
    if sep.1 {
        lemma_tail_eq_shift(a, i, b, j, sep.0 as int);
        lemma_value_agree(a, i + sep.0, b, j + sep.0);
        match spec_value(a, i + sep.0) {
            Option::Some((dv, v)) => {
                if sep.0 + dv >= 1 {
                    lemma_tail_eq_shift(a, i, b, j, (sep.0 + dv) as int);
                    lemma_items_more_agree(a, i + sep.0 + dv, b, j + sep.0 + dv);
                }
            },
            Option::None => {},
        }
    }
}

/// The array rule reads only the tail.
#[verifier::rlimit(50)]
pub proof fn lemma_array_agree(a: Seq<u8>, i: int, b: Seq<u8>, j: int)
    requires
        tail_eq(a, i, b, j),
    ensures
        spec_array(a, i) == spec_array(b, j),
    decreases rem(a, i), 0int,
{
    if 0 <= i && i < a.len() {
        assert(a[i + 0] == b[j + 0]);
        if a[i] == 91 {
            lemma_tail_eq_shift(a, i, b, j, 1);
            lemma_ws_agree(a, i + 1, b, j + 1, false);
            let dw = spec_ws(a, i + 1);
            lemma_tail_eq_shift(a, i, b, j, (1 + dw) as int);
            lemma_items_agree(a, i + 1 + dw, b, j + 1 + dw);
            let di = spec_items(a, i + 1 + dw).0;
            lemma_tail_eq_shift(a, i, b, j, (1 + dw + di) as int);
            lemma_ws_agree(a, i + 1 + dw + di, b, j + 1 + dw + di, false);
            let dw2 = spec_ws(a, i + 1 + dw + di);
            let p = i + 1 + dw + di + dw2;
            if 0 <= p && p < a.len() {
                assert(a[i + (1 + dw + di + dw2)] == b[j + (1 + dw + di + dw2)]);
            }
        }
    }
}

/// The object rule reads only the tail.
#[verifier::rlimit(50)]
pub proof fn lemma_object_agree(a: Seq<u8>, i: int, b: Seq<u8>, j: int)
    requires
        tail_eq(a, i, b, j),
    ensures
        spec_object(a, i) == spec_object(b, j),
    decreases rem(a, i), 0int,
{
    if 0 <= i && i < a.len() {
        assert(a[i + 0] == b[j + 0]);
        if a[i] == 123 {
            lemma_tail_eq_shift(a, i, b, j, 1);
            lemma_ws_agree(a, i + 1, b, j + 1, false);
            let dw = spec_ws(a, i + 1);
            lemma_tail_eq_shift(a, i, b, j, (1 + dw) as int);
            lemma_body_agree(a, i + 1 + dw, b, j + 1 + dw);
            let db = spec_body(a, i + 1 + dw).0;
            lemma_tail_eq_shift(a, i, b, j, (1 + dw + db) as int);
            lemma_ws_agree(a, i + 1 + dw + db, b, j + 1 + dw + db, false);
            let dw2 = spec_ws(a, i + 1 + dw + db);
            let p = i + 1 + dw + db + dw2;
            if 0 <= p && p < a.len() {
                assert(a[i + (1 + dw + db + dw2)] == b[j + (1 + dw + db + dw2)]);
            }
        }
    }
}

/// One object entry reads only the tail.
#[verifier::rlimit(50)]
pub proof fn lemma_entry_agree(a: Seq<u8>, i: int, b: Seq<u8>, j: int)
    requires
        tail_eq(a, i, b, j),
    ensures
        spec_entry(a, i) == spec_entry(b, j),
    decreases rem(a, i), 1int,
{
    lemma_path_agree(a, i, b, j);
    match spec_path(a, i) {
        crate::grammar::SpecPath::Done { delta: dp, segs } => {
            lemma_tail_eq_shift(a, i, b, j, dp as int);
            lemma_ws_agree(a, i + dp, b, j + dp, false);
            let dw = spec_ws(a, i + dp);
            let p = i + dp + dw;
            let q = j + dp + dw;
            lemma_tail_eq_shift(a, i, b, j, (dp + dw) as int);
            if p < a.len() {
                assert(a[i + (dp + dw)] == b[j + (dp + dw)]);
                if a[p] == 123 {
                    lemma_object_agree(a, p, b, q);
                } else if a[p] == 58 || a[p] == 61 {
                    lemma_tail_eq_shift(a, p, b, q, 1);
                    lemma_ws_agree(a, p + 1, b, q + 1, false);
                    let dw2 = spec_ws(a, p + 1);
                    lemma_tail_eq_shift(a, p, b, q, (1 + dw2) as int);
                    lemma_value_agree(a, p + 1 + dw2, b, q + 1 + dw2);
                }
            }
        },
        _ => {},
    }
}

/// The entries of a body read only the tail.
pub proof fn lemma_entries_agree(a: Seq<u8>, i: int, b: Seq<u8>, j: int)
    requires
        tail_eq(a, i, b, j),
    ensures
        spec_entries(a, i) == spec_entries(b, j),
    decreases rem(a, i), 3int,
{
    lemma_entry_agree(a, i, b, j);
    match spec_entry(a, i) {
        crate::grammar::SpecEntry::Done { delta, segs, v } => {
            lemma_tail_eq_shift(a, i, b, j, delta as int);
            lemma_entries_more_agree(a, i + delta, b, j + delta);
        },
        _ => {},
    }
}

/// Further body entries read only the tail.
pub proof fn lemma_entries_more_agree(a: Seq<u8>, i: int, b: Seq<u8>, j: int)
    requires
        tail_eq(a, i, b, j),
    ensures
        spec_entries_more(a, i) == spec_entries_more(b, j),
    decreases rem(a, i), 2int,
{
    lemma_sep_agree(a, i, b, j, false, false, false);
    let sep = spec_sep(a, i);
    if sep.1 {
        lemma_tail_eq_shift(a, i, b, j, sep.0 as int);
        lemma_entry_agree(a, i + sep.0, b, j + sep.0);
        match spec_entry(a, i + sep.0) {
            crate::grammar::SpecEntry::Done { delta, segs, v } => {
                if sep.0 + delta >= 1 {
                    lemma_tail_eq_shift(a, i, b, j, (sep.0 + delta) as int);
                    lemma_entries_more_agree(a, i + sep.0 + delta, b, j + sep.0 + delta);
                }
            },
            _ => {},
        }
    }
}

/// The object body reads only the tail.
pub proof fn lemma_body_agree(a: Seq<u8>, i: int, b: Seq<u8>, j: int)
    requires
        tail_eq(a, i, b, j),
    ensures
        spec_body(a, i) == spec_body(b, j),
    decreases rem(a, i), 4int,
{
    lemma_entries_agree(a, i, b, j);
}


/// Two inputs that differ in a single byte, a `:` in one and a `=` in
/// the other.
pub open spec fn sep_swap_eq(a: Seq<u8>, b: Seq<u8>, j: int) -> bool {
    &&& a.len() == b.len()
    &&& 0 <= j < a.len()
    &&& a[j] == 58
    &&& b[j] == 61
    &&& forall|k: int| 0 <= k < a.len() && k != j ==> a[k] == #[trigger] b[k]
}

/// Whitespace scanning cannot tell `:` from `=`: both stop it.
pub proof fn lemma_ws_swap(a: Seq<u8>, b: Seq<u8>, j: int, i: int, c: bool)
    requires
        sep_swap_eq(a, b, j),
    ensures
        spec_ws_scan(a, i, c) == spec_ws_scan(b, i, c),
    decreases a.len() - i,
{
    if 0 <= i && i < a.len() {
        lemma_ws_swap(a, b, j, i + 1, true);
        lemma_ws_swap(a, b, j, i + 1, false);
        if i + 2 <= a.len() {
            lemma_ws_swap(a, b, j, i + 2, true);
        }
    }
}

/// An unquoted token cannot tell `:` from `=`: both end it.
pub proof fn lemma_unquoted_swap(a: Seq<u8>, b: Seq<u8>, j: int, i: int, allow_dot: bool)
    requires
        sep_swap_eq(a, b, j),
    ensures
        spec_unquoted_len(a, i, allow_dot) == spec_unquoted_len(b, i, allow_dot),
    decreases a.len() - i,
{
    if 0 <= i && i < a.len() {
        lemma_unquoted_swap(a, b, j, i + 1, allow_dot);
    }
}

/// The escape scan cannot tell `:` from `=` in shape or extent; its
/// collected text is also unchanged when it closes before the swapped
/// byte.
pub proof fn lemma_escaped_swap(a: Seq<u8>, b: Seq<u8>, j: int, i: int)
    requires
        sep_swap_eq(a, b, j),
        0 <= i,
    ensures
        ({
            match spec_escaped(a, i) {
                SpecEsc::Done { delta, text } => spec_escaped(b, i) matches SpecEsc::Done {
                    delta: db,
                    text: tb,
                } && db == delta && (i + delta <= j ==> tb == text),
                SpecEsc::Fail => spec_escaped(b, i) is Fail,
                SpecEsc::Incomplete => spec_escaped(b, i) is Incomplete,
            }
        }),
    decreases a.len() - i,
{
    if i < a.len() {
        if a[i] == 92 && i + 1 < a.len() && a[i + 1] == 34 {
            lemma_escaped_swap(a, b, j, i + 2);
        } else if a[i] == 34 {
        } else if a[i] == 10 {
        } else {
            lemma_escaped_swap(a, b, j, i + 1);
        }
    }
}

/// A path segment that ends at or before the swapped byte parses the
/// same with `:` as with `=`.
pub proof fn lemma_segment_swap(a: Seq<u8>, b: Seq<u8>, j: int, i: int)
    requires
        sep_swap_eq(a, b, j),
        0 <= i,
        spec_segment(a, i) is Done,
        i + spec_segment(a, i)->Done_delta <= j,
    ensures
        spec_segment(b, i) == spec_segment(a, i),
{
    if i < a.len() && a[i] == 34 {
        lemma_escaped_swap(a, b, j, i + 1);
    } else {
        lemma_unquoted_swap(a, b, j, i, false);
        let n = spec_unquoted_len(a, i, false);
        assert forall|k: int| 0 <= k < n implies #[trigger] a.subrange(i, i + n)[k] == b.subrange(
            i,
            i + n,
        )[k] by {
            assert(a[i + k] == b[i + k]);
        }
        assert(a.subrange(i, i + n) =~= b.subrange(i, i + n));
    }
}

/// Further path segments parse the same with `:` as with `=`, when the
/// whitespace after them runs exactly up to the swapped byte.
pub proof fn lemma_path_more_swap(a: Seq<u8>, b: Seq<u8>, j: int, i: int)
    requires
        sep_swap_eq(a, b, j),
        0 <= i,
        i + spec_path_more(a, i).0 + spec_ws(a, i + spec_path_more(a, i).0) == j,
    ensures
        spec_path_more(b, i) == spec_path_more(a, i),
    decreases rem(a, i), 0int,
{
    let d = spec_path_more(a, i).0;
    if 0 <= i && i < a.len() && a[i] == 46 {
        assert(i != j);
        assert(a[i] == b[i]);
        match spec_segment(a, i + 1) {
            crate::grammar::SpecSeg::Done { delta, seg } => {
                assert(d == 1 + delta + spec_path_more(a, i + 1 + delta).0);
                lemma_segment_swap(a, b, j, i + 1);
                lemma_path_more_swap(a, b, j, i + 1 + delta);
            },
            _ => {
                // the scan stopped at the dot, so the whitespace run
                // from here would have to start at the dot itself,
                // which is not whitespace; the premise then puts the
                // swapped byte here, yet a dot is not a separator.
                assert(d == 0);
                assert(spec_ws(a, i) == 0);
                assert(false);
            },
        }
    } else {
        assert(d == 0);
        if 0 <= i && i < a.len() && i != j {
            assert(a[i] == b[i]);
        }
    }
}

/// A dotted path parses the same with `:` as with `=`, when the
/// whitespace after it runs exactly up to the swapped byte.
pub proof fn lemma_path_swap(a: Seq<u8>, b: Seq<u8>, j: int, i: int)
    requires
        sep_swap_eq(a, b, j),
        0 <= i,
        spec_path(a, i) is Done,
        i + spec_path(a, i)->Done_delta + spec_ws(a, i + spec_path(a, i)->Done_delta) == j,
    ensures
        spec_path(b, i) == spec_path(a, i),
{
    match spec_segment(a, i) {
        crate::grammar::SpecSeg::Done { delta, seg } => {
            lemma_segment_swap(a, b, j, i);
            lemma_path_more_swap(a, b, j, i + delta);
        },
        _ => {},
    }
}

/// One object entry parses the same whether its separator is written
/// `:` or `=`: with the two inputs equal except at the separator
/// position, the paths, the values, and the consumed extents coincide.
pub proof fn lemma_entry_swap(a: Seq<u8>, b: Seq<u8>, j: int, i: int)
    requires
        sep_swap_eq(a, b, j),
        0 <= i,
        spec_path(a, i) is Done,
        i + spec_path(a, i)->Done_delta + spec_ws(a, i + spec_path(a, i)->Done_delta) == j,
    ensures
        spec_entry(b, i) == spec_entry(a, i),
{
    lemma_path_swap(a, b, j, i);
    match spec_path(a, i) {
        crate::grammar::SpecPath::Done { delta: dp, segs } => {
            lemma_ws_swap(a, b, j, i + dp, false);
            let dw = spec_ws(a, i + dp);
            assert(i + dp + dw == j);
            assert(tail_eq(a, j + 1, b, j + 1)) by {
                assert forall|k: int| 0 <= k && j + 1 + k < a.len() implies a[j + 1 + k]
                    == #[trigger] b[j + 1 + k] by {
                    assert(j + 1 + k != j);
                }
            }
            lemma_ws_agree(a, j + 1, b, j + 1, false);
            let dw2 = spec_ws(a, j + 1);
            lemma_tail_eq_shift(a, j + 1, b, j + 1, dw2 as int);
            lemma_value_agree(a, j + 1 + dw2, b, j + 1 + dw2);
        },
        _ => {},
    }
}

} // verus!

