//! The grammar, written as total specification functions over a byte
//! sequence and a cursor.
//!
//! Every rule returns the number of bytes it consumes (a delta from the
//! cursor) together with what it produced, so a rule's result depends
//! only on the bytes at and after the cursor. Rules that can tell
//! "ran off the end of the input" apart from "no match" return a
//! three-way outcome, mirroring the behaviour of the executable parser:
//! inside a value, running off the end is treated as no match, while at
//! the brace of a top-level object it is reported as incomplete input.

use vstd::prelude::*;
use vstd::utf8::valid_utf8;

use crate::model::SpecValue;
use crate::model::spec_merge;

verus! {

// ---------------------------------------------------------------------
// Lexical scanning: whitespace, comments, and the inferred comma.
// ---------------------------------------------------------------------

/// Number of bytes of whitespace starting at `i`: spaces, tabs,
/// newlines, and `#` or `//` comments running to end of line.
/// `in_comment` is the scanning state inside a comment run.
pub open spec fn spec_ws_scan(s: Seq<u8>, i: int, in_comment: bool) -> nat
    decreases s.len() - i,
{
    if i < 0 || i >= s.len() {
        0
    } else if in_comment {
        if s[i] == 10 {
            1 + spec_ws_scan(s, i + 1, false)
        } else {
            1 + spec_ws_scan(s, i + 1, true)
        }
    } else if s[i] == 32 || s[i] == 9 || s[i] == 10 {
        1 + spec_ws_scan(s, i + 1, false)
    } else if s[i] == 35 {
        1 + spec_ws_scan(s, i + 1, true)
    } else if s[i] == 47 && i + 1 < s.len() && s[i + 1] == 47 {
        2 + spec_ws_scan(s, i + 2, true)
    } else {
        0
    }
}

/// The whitespace rule: never fails, may consume nothing.
pub open spec fn spec_ws(s: Seq<u8>, i: int) -> nat {
    spec_ws_scan(s, i, false)
}

/// Scan of the separator between successive elements: spaces, tabs,
/// comments, newlines, and at most one comma. The scan stops at the
/// second comma or at any other token. It succeeds only if it saw at
/// least one newline or comma.
pub open spec fn spec_sep_scan(
    s: Seq<u8>,
    i: int,
    seen_nl: bool,
    seen_comma: bool,
    in_comment: bool,
) -> (nat, bool)
    decreases s.len() - i,
{
    if i < 0 || i >= s.len() {
        (0, seen_nl || seen_comma)
    } else if in_comment {
        if s[i] == 10 {
            sep_step(1, spec_sep_scan(s, i + 1, true, seen_comma, false))
        } else {
            sep_step(1, spec_sep_scan(s, i + 1, seen_nl, seen_comma, true))
        }
    } else if s[i] == 32 || s[i] == 9 {
        sep_step(1, spec_sep_scan(s, i + 1, seen_nl, seen_comma, false))
    } else if s[i] == 10 {
        sep_step(1, spec_sep_scan(s, i + 1, true, seen_comma, false))
    } else if s[i] == 35 {
        sep_step(1, spec_sep_scan(s, i + 1, seen_nl, seen_comma, true))
    } else if s[i] == 47 && i + 1 < s.len() && s[i + 1] == 47 {
        sep_step(2, spec_sep_scan(s, i + 2, seen_nl, seen_comma, true))
    } else if s[i] == 44 && !seen_comma {
        sep_step(1, spec_sep_scan(s, i + 1, seen_nl, true, false))
    } else {
        (0, seen_nl || seen_comma)
    }
}

/// Helper: extend a separator scan result by `d` consumed bytes.
pub open spec fn sep_step(d: nat, r: (nat, bool)) -> (nat, bool) {
    (d + r.0, r.1)
}

/// The inferred-comma rule: consumed length and whether it succeeded.
pub open spec fn spec_sep(s: Seq<u8>, i: int) -> (nat, bool) {
    spec_sep_scan(s, i, false, false, false)
}

// ---------------------------------------------------------------------
// Tokens: unquoted text, quoted text, triple-quoted text, numbers.
// ---------------------------------------------------------------------

/// Remaining input length at cursor `i`, clamped at zero; the measure
/// by which the recursive rules decrease.
pub open spec fn rem(s: Seq<u8>, i: int) -> int {
    if s.len() - i >= 0 {
        s.len() - i
    } else {
        0
    }
}

/// Bytes that end an unquoted token.
pub open spec fn is_unquoted_break(c: u8) -> bool {
    ||| c == 36  // $
    ||| c == 34  // "
    ||| c == 123  // {
    ||| c == 125  // }
    ||| c == 91  // [
    ||| c == 93  // ]
    ||| c == 58  // :
    ||| c == 61  // =
    ||| c == 44  // ,
    ||| c == 43  // +
    ||| c == 35  // #
    ||| c == 96  // backtick
    ||| c == 94  // ^
    ||| c == 63  // ?
    ||| c == 33  // !
    ||| c == 64  // @
    ||| c == 42  // *
    ||| c == 38  // &
    ||| c == 92  // backslash
    ||| c == 32  // space
    ||| c == 9  // tab
    ||| c == 10  // newline
    ||| c == 13  // carriage return
    ||| c == 39  // '
}

/// Length of the unquoted token at `i`: a run of bytes outside the
/// break set, also stopped by `//` and, when `allow_dot` is false, by a
/// dot. Zero length means the token is absent (an incomplete match).
pub open spec fn spec_unquoted_len(s: Seq<u8>, i: int, allow_dot: bool) -> nat
    decreases s.len() - i,
{
    if i < 0 || i >= s.len() {
        0
    } else if s[i] == 47 && i + 1 < s.len() && s[i + 1] == 47 {
        0
    } else if is_unquoted_break(s[i]) {
        0
    } else if s[i] == 46 && !allow_dot {
        0
    } else {
        1 + spec_unquoted_len(s, i + 1, allow_dot)
    }
}

/// Outcome of scanning the inside of a quoted string.
pub enum SpecEsc {
    /// The closing quote stands `delta` bytes ahead; `text` is the
    /// contents with `\"` escapes resolved.
    Done { delta: nat, text: Seq<u8> },
    /// A literal newline appeared before the closing quote.
    Fail,
    /// The input ended before the closing quote.
    Incomplete,
}

/// Scan the inside of a quoted string starting at `i` (just after the
/// opening quote). The only escape is `\"`; a bare newline is a hard
/// failure; the closing quote is not consumed.
pub open spec fn spec_escaped(s: Seq<u8>, i: int) -> SpecEsc
    decreases s.len() - i,
{
    if i < 0 || i >= s.len() {
        SpecEsc::Incomplete
    } else if s[i] == 92 && i + 1 < s.len() && s[i + 1] == 34 {
        match spec_escaped(s, i + 2) {
            SpecEsc::Done { delta, text } => SpecEsc::Done {
                delta: 2 + delta,
                text: seq![34u8] + text,
            },
            SpecEsc::Fail => SpecEsc::Fail,
            SpecEsc::Incomplete => SpecEsc::Incomplete,
        }
    } else if s[i] == 34 {
        SpecEsc::Done { delta: 0, text: Seq::empty() }
    } else if s[i] == 10 {
        SpecEsc::Fail
    } else {
        match spec_escaped(s, i + 1) {
            SpecEsc::Done { delta, text } => SpecEsc::Done {
                delta: 1 + delta,
                text: seq![s[i]] + text,
            },
            SpecEsc::Fail => SpecEsc::Fail,
            SpecEsc::Incomplete => SpecEsc::Incomplete,
        }
    }
}

/// Distance from `i` to the earliest `"""` at or after `i`, if any.
pub open spec fn spec_find_triple(s: Seq<u8>, i: int) -> Option<nat>
    decreases s.len() - i,
{
    if i < 0 || i + 3 > s.len() {
        Option::None
    } else if s[i] == 34 && s[i + 1] == 34 && s[i + 2] == 34 {
        Option::Some(0nat)
    } else {
        match spec_find_triple(s, i + 1) {
            Option::Some(d) => Option::Some(1 + d),
            Option::None => Option::None,
        }
    }
}

/// Number of decimal digits at `i`.
pub open spec fn spec_digits_len(s: Seq<u8>, i: int) -> nat
    decreases s.len() - i,
{
    if i < 0 || i >= s.len() {
        0
    } else if 48 <= s[i] && s[i] <= 57 {
        1 + spec_digits_len(s, i + 1)
    } else {
        0
    }
}

/// Value of the `n` decimal digits at `i`.
pub open spec fn spec_digits_val(s: Seq<u8>, i: int, n: nat) -> int
    decreases n,
{
    if n == 0 {
        0
    } else {
        10 * spec_digits_val(s, i, (n - 1) as nat) + (s[i + n - 1] - 48)
    }
}

/// Length of an optional leading sign at `i`.
pub open spec fn spec_sign_len(s: Seq<u8>, i: int) -> nat {
    if 0 <= i < s.len() && (s[i] == 43 || s[i] == 45) {
        1
    } else {
        0
    }
}

/// The integer rule: an optional sign and decimal digits. Fails when no
/// digit follows or the value does not fit a 64-bit signed integer.
pub open spec fn spec_int(s: Seq<u8>, i: int) -> Option<(nat, i64)> {
    let sl = spec_sign_len(s, i);
    let nd = spec_digits_len(s, i + sl);
    if nd == 0 {
        Option::None
    } else {
        let mag = spec_digits_val(s, i + sl, nd);
        let v: int = if 0 <= i < s.len() && s[i] == 45 {
            -mag
        } else {
            mag
        };
        if -9223372036854775808 <= v <= 9223372036854775807 {
            Option::Some(((sl + nd) as nat, v as i64))
        } else {
            Option::None
        }
    }
}

/// Length of an exponent part at `j` (`e` or `E`, optional sign,
/// digits); zero when there is no well-formed exponent here.
pub open spec fn spec_exp_len(s: Seq<u8>, j: int) -> nat {
    if 0 <= j < s.len() && (s[j] == 101 || s[j] == 69) {
        let sl = spec_sign_len(s, j + 1);
        let nd = spec_digits_len(s, j + 1 + sl);
        if nd == 0 {
            0
        } else {
            1 + sl + nd
        }
    } else {
        0
    }
}

/// Extent of a float literal at `i`: optional sign, decimal digits with
/// a dot (on at least one side of which a digit stands), or digits with
/// an exponent; a decimal point or exponent marker is what routes a
/// number to the floating form.
pub open spec fn spec_float_len(s: Seq<u8>, i: int) -> Option<nat> {
    let sl = spec_sign_len(s, i);
    let n1 = spec_digits_len(s, i + sl);
    let p = i + sl + n1;
    if 0 <= p < s.len() && s[p] == 46 {
        let n2 = spec_digits_len(s, p + 1);
        if n1 == 0 && n2 == 0 {
            Option::None
        } else {
            let mant = sl + n1 + 1 + n2;
            Option::Some((mant + spec_exp_len(s, i + mant)) as nat)
        }
    } else if n1 > 0 {
        let e = spec_exp_len(s, p);
        if e == 0 {
            Option::None
        } else {
            Option::Some((sl + n1 + e) as nat)
        }
    } else {
        Option::None
    }
}

/// The string rule: triple-quoted raw text, then quoted text with the
/// `\"` escape, then an unquoted token; each form must be valid UTF-8.
pub open spec fn spec_string(s: Seq<u8>, i: int) -> Option<(nat, Seq<u8>)> {
    if 0 <= i && i + 3 <= s.len() && s[i] == 34 && s[i + 1] == 34 && s[i + 2] == 34
        && spec_triple_ok(s, i) {
        spec_triple(s, i)
    } else if 0 <= i < s.len() && s[i] == 34 && spec_quoted_ok(s, i) {
        spec_quoted(s, i)
    } else {
        let n = spec_unquoted_len(s, i, true);
        if n > 0 && valid_utf8(s.subrange(i, i + n)) {
            Option::Some((n, s.subrange(i, i + n)))
        } else {
            Option::None
        }
    }
}

/// Whether a triple-quoted string at `i` parses (closed and UTF-8).
pub open spec fn spec_triple_ok(s: Seq<u8>, i: int) -> bool {
    match spec_find_triple(s, i + 3) {
        Option::Some(d) => valid_utf8(s.subrange(i + 3, i + 3 + d)),
        Option::None => false,
    }
}

/// The triple-quoted string at `i`: raw text, no escape processing.
pub open spec fn spec_triple(s: Seq<u8>, i: int) -> Option<(nat, Seq<u8>)> {
    match spec_find_triple(s, i + 3) {
        Option::Some(d) => Option::Some(((6 + d) as nat, s.subrange(i + 3, i + 3 + d))),
        Option::None => Option::None,
    }
}

/// Whether a quoted string at `i` parses (closed, no bare newline,
/// UTF-8 after escape resolution).
pub open spec fn spec_quoted_ok(s: Seq<u8>, i: int) -> bool {
    match spec_escaped(s, i + 1) {
        SpecEsc::Done { delta, text } => valid_utf8(text),
        _ => false,
    }
}

/// The quoted string at `i`, both quotes consumed.
pub open spec fn spec_quoted(s: Seq<u8>, i: int) -> Option<(nat, Seq<u8>)> {
    match spec_escaped(s, i + 1) {
        SpecEsc::Done { delta, text } => Option::Some(((2 + delta) as nat, text)),
        _ => Option::None,
    }
}

/// The `null` keyword at `i`.
pub open spec fn spec_tag_null(s: Seq<u8>, i: int) -> bool {
    0 <= i && i + 4 <= s.len() && s[i] == 110 && s[i + 1] == 117 && s[i + 2] == 108 && s[i + 3]
        == 108
}

/// The `true` keyword at `i`.
pub open spec fn spec_tag_true(s: Seq<u8>, i: int) -> bool {
    0 <= i && i + 4 <= s.len() && s[i] == 116 && s[i + 1] == 114 && s[i + 2] == 117 && s[i + 3]
        == 101
}

/// The `false` keyword at `i`.
pub open spec fn spec_tag_false(s: Seq<u8>, i: int) -> bool {
    0 <= i && i + 5 <= s.len() && s[i] == 102 && s[i + 1] == 97 && s[i + 2] == 108 && s[i + 3]
        == 115 && s[i + 4] == 101
}

// ---------------------------------------------------------------------
// Paths.
// ---------------------------------------------------------------------

/// Outcome of parsing one path segment.
pub enum SpecSeg {
    Done { delta: nat, seg: Seq<u8> },
    Fail,
    Incomplete,
}

/// One path segment: a quoted string, or an unquoted token in which a
/// dot is a separator and so cannot appear.
pub open spec fn spec_segment(s: Seq<u8>, i: int) -> SpecSeg {
    if 0 <= i < s.len() && s[i] == 34 {
        match spec_escaped(s, i + 1) {
            SpecEsc::Done { delta, text } => {
                if valid_utf8(text) {
                    SpecSeg::Done { delta: (2 + delta) as nat, seg: text }
                } else {
                    SpecSeg::Fail
                }
            },
            SpecEsc::Incomplete => SpecSeg::Incomplete,
            SpecEsc::Fail => SpecSeg::Fail,
        }
    } else {
        let n = spec_unquoted_len(s, i, false);
        if n == 0 {
            SpecSeg::Incomplete
        } else if valid_utf8(s.subrange(i, i + n)) {
            SpecSeg::Done { delta: n, seg: s.subrange(i, i + n) }
        } else {
            SpecSeg::Fail
        }
    }
}

/// Outcome of parsing a dotted path.
pub enum SpecPath {
    Done { delta: nat, segs: Seq<Seq<u8>> },
    Fail,
    Incomplete,
}

/// Further `.`-separated segments; stops (rewinding the dot) when no
/// segment follows a dot.
pub open spec fn spec_path_more(s: Seq<u8>, i: int) -> (nat, Seq<Seq<u8>>)
    decreases rem(s, i), 0int,
{
    if 0 <= i < s.len() && s[i] == 46 {
        match spec_segment(s, i + 1) {
            SpecSeg::Done { delta, seg } => {
                let r = spec_path_more(s, i + 1 + delta);
                ((1 + delta + r.0) as nat, seq![seg] + r.1)
            },
            _ => (0, Seq::empty()),
        }
    } else {
        (0, Seq::empty())
    }
}

/// A dotted path: one or more segments separated by literal dots.
pub open spec fn spec_path(s: Seq<u8>, i: int) -> SpecPath
    decreases rem(s, i), 1int,
{
    match spec_segment(s, i) {
        SpecSeg::Done { delta, seg } => {
            let r = spec_path_more(s, i + delta);
            SpecPath::Done { delta: (delta + r.0) as nat, segs: seq![seg] + r.1 }
        },
        SpecSeg::Fail => SpecPath::Fail,
        SpecSeg::Incomplete => SpecPath::Incomplete,
    }
}

// ---------------------------------------------------------------------
// Values: the mutually recursive composite grammar.
// ---------------------------------------------------------------------

/// Outcome of parsing a brace-delimited object.
pub enum SpecObj {
    Done { delta: nat, v: SpecValue },
    Fail,
    Incomplete,
}

/// Outcome of parsing one `path (object | sep value)` entry.
pub enum SpecEntry {
    Done { delta: nat, segs: Seq<Seq<u8>>, v: SpecValue },
    Fail,
    Incomplete,
}

/// The value rule. Alternatives in fixed order: null, booleans, float,
/// integer, string, array, object; the first match wins. Running off
/// the end of the input inside any alternative counts as no match here.
pub open spec fn spec_value(s: Seq<u8>, i: int) -> Option<(nat, SpecValue)>
    decreases rem(s, i), 1int,
{
    if spec_tag_null(s, i) {
        Option::Some((4nat, SpecValue::Null))
    } else if spec_tag_true(s, i) {
        Option::Some((4nat, SpecValue::Boolean(true)))
    } else if spec_tag_false(s, i) {
        Option::Some((5nat, SpecValue::Boolean(false)))
    } else {
        match spec_float_len(s, i) {
            Option::Some(n) => Option::Some((n, SpecValue::Float(s.subrange(i, i + n)))),
            Option::None => match spec_int(s, i) {
                Option::Some((n, v)) => Option::Some((n, SpecValue::Int(v))),
                Option::None => match spec_string(s, i) {
                    Option::Some((n, t)) => Option::Some((n, SpecValue::Str(t))),
                    Option::None => match spec_array(s, i) {
                        Option::Some((n, items)) => Option::Some((n, SpecValue::Arr(items))),
                        Option::None => match spec_object(s, i) {
                            SpecObj::Done { delta, v } => Option::Some((delta, v)),
                            _ => Option::None,
                        },
                    },
                },
            },
        }
    }
}

/// Array elements: a possibly empty list of values separated by the
/// inferred-comma rule. Total; an absent first element means an empty
/// list.
pub open spec fn spec_items(s: Seq<u8>, i: int) -> (nat, Seq<SpecValue>)
    decreases rem(s, i), 3int,
{
    match spec_value(s, i) {
        Option::None => (0, Seq::empty()),
        Option::Some((d, v)) => {
            let r = spec_items_more(s, i + d);
            ((d + r.0) as nat, seq![v] + r.1)
        },
    }
}

/// Further separator-prefixed array elements; stops (rewinding the
/// separator) when no element follows. The zero-progress stop mirrors
/// the executable parser's protection against an empty step and is
/// never reached, since a successful separator consumes at least one
/// byte.
pub open spec fn spec_items_more(s: Seq<u8>, i: int) -> (nat, Seq<SpecValue>)
    decreases rem(s, i), 2int,
{
    let sep = spec_sep(s, i);
    if !sep.1 {
        (0, Seq::empty())
    } else {
        match spec_value(s, i + sep.0) {
            Option::None => (0, Seq::empty()),
            Option::Some((dv, v)) => {
                if sep.0 + dv < 1 {
                    (0, Seq::empty())
                } else {
                    let r = spec_items_more(s, i + sep.0 + dv);
                    ((sep.0 + dv + r.0) as nat, seq![v] + r.1)
                }
            },
        }
    }
}

/// The array rule: `[`, whitespace, elements, whitespace, `]`.
pub open spec fn spec_array(s: Seq<u8>, i: int) -> Option<(nat, Seq<SpecValue>)>
    decreases rem(s, i), 0int,
{
    if !(0 <= i < s.len()) || s[i] != 91 {
        Option::None
    } else {
        let dw = spec_ws(s, i + 1);
        let r = spec_items(s, i + 1 + dw);
        let dw2 = spec_ws(s, i + 1 + dw + r.0);
        let j = i + 1 + dw + r.0 + dw2;
        if 0 <= j < s.len() && s[j] == 93 {
            Option::Some(((1 + dw + r.0 + dw2 + 1) as nat, r.1))
        } else {
            Option::None
        }
    }
}

/// The object rule: `{`, whitespace, object body, whitespace, `}`.
/// Running off the end while looking for a brace is incomplete input.
pub open spec fn spec_object(s: Seq<u8>, i: int) -> SpecObj
    decreases rem(s, i), 0int,
{
    if i >= s.len() {
        SpecObj::Incomplete
    } else if !(0 <= i) || s[i] != 123 {
        SpecObj::Fail
    } else {
        let dw = spec_ws(s, i + 1);
        let r = spec_body(s, i + 1 + dw);
        let dw2 = spec_ws(s, i + 1 + dw + r.0);
        let j = i + 1 + dw + r.0 + dw2;
        if j >= s.len() {
            SpecObj::Incomplete
        } else if s[j] == 125 {
            SpecObj::Done { delta: (1 + dw + r.0 + dw2 + 1) as nat, v: r.1 }
        } else {
            SpecObj::Fail
        }
    }
}

/// One object entry: a path followed either directly by a braced object
/// or by a `:` or `=` separator and a value.
pub open spec fn spec_entry(s: Seq<u8>, i: int) -> SpecEntry
    decreases rem(s, i), 1int,
{
    match spec_path(s, i) {
        SpecPath::Fail => SpecEntry::Fail,
        SpecPath::Incomplete => SpecEntry::Incomplete,
        SpecPath::Done { delta: dp, segs } => {
            let dw = spec_ws(s, i + dp);
            let j = i + dp + dw;
            if j >= s.len() {
                SpecEntry::Incomplete
            } else if s[j] == 123 {
                match spec_object(s, j) {
                    SpecObj::Done { delta, v } => SpecEntry::Done {
                        delta: (dp + dw + delta) as nat,
                        segs,
                        v,
                    },
                    SpecObj::Incomplete => SpecEntry::Incomplete,
                    SpecObj::Fail => SpecEntry::Fail,
                }
            } else if s[j] == 58 || s[j] == 61 {
                let dw2 = spec_ws(s, j + 1);
                match spec_value(s, j + 1 + dw2) {
                    Option::Some((dv, v)) => SpecEntry::Done {
                        delta: (dp + dw + 1 + dw2 + dv) as nat,
                        segs,
                        v,
                    },
                    Option::None => SpecEntry::Fail,
                }
            } else {
                SpecEntry::Fail
            }
        },
    }
}

/// The entries of an object body: a possibly empty list of entries
/// separated by the inferred-comma rule. Total; a failed or incomplete
/// first entry means an empty list.
pub open spec fn spec_entries(s: Seq<u8>, i: int) -> (nat, Seq<(Seq<Seq<u8>>, SpecValue)>)
    decreases rem(s, i), 3int,
{
    match spec_entry(s, i) {
        SpecEntry::Done { delta, segs, v } => {
            let r = spec_entries_more(s, i + delta);
            ((delta + r.0) as nat, seq![(segs, v)] + r.1)
        },
        _ => (0, Seq::empty()),
    }
}

/// Further separator-prefixed entries; stops (rewinding the separator)
/// when no entry follows. The zero-progress stop mirrors the
/// executable parser's protection against an empty step and is never
/// reached.
pub open spec fn spec_entries_more(s: Seq<u8>, i: int) -> (nat, Seq<(Seq<Seq<u8>>, SpecValue)>)
    decreases rem(s, i), 2int,
{
    let sep = spec_sep(s, i);
    if !sep.1 {
        (0, Seq::empty())
    } else {
        match spec_entry(s, i + sep.0) {
            SpecEntry::Done { delta, segs, v } => {
                if sep.0 + delta < 1 {
                    (0, Seq::empty())
                } else {
                    let r = spec_entries_more(s, i + sep.0 + delta);
                    ((sep.0 + delta + r.0) as nat, seq![(segs, v)] + r.1)
                }
            },
            _ => (0, Seq::empty()),
        }
    }
}

/// Expansion of a path and value into a chain of single-key objects,
/// the first segment outermost.
pub open spec fn spec_chain(segs: Seq<Seq<u8>>, v: SpecValue) -> SpecValue
    decreases segs.len(),
{
    if segs.len() == 0 {
        v
    } else {
        SpecValue::Obj(Map::empty().insert(segs[0], spec_chain(segs.drop_first(), v)))
    }
}

/// Fold of parsed entries into the accumulating document root: each
/// entry's chain is deep-merged on top, earlier entries first.
pub open spec fn spec_fold_entries(
    entries: Seq<(Seq<Seq<u8>>, SpecValue)>,
    acc: SpecValue,
) -> SpecValue
    decreases entries.len(),
{
    if entries.len() == 0 {
        acc
    } else {
        spec_fold_entries(
            entries.drop_first(),
            spec_merge(acc, spec_chain(entries[0].0, entries[0].1)),
        )
    }
}

/// The object body: entries folded into an object, starting from the
/// empty object.
pub open spec fn spec_body(s: Seq<u8>, i: int) -> (nat, SpecValue)
    decreases rem(s, i), 4int,
{
    let r = spec_entries(s, i);
    (r.0, spec_fold_entries(r.1, SpecValue::Obj(Map::empty())))
}

// ---------------------------------------------------------------------
// The document root and the driver's outcome.
// ---------------------------------------------------------------------

/// Outcome of the root rule: the position after the value and trailing
/// whitespace, or incomplete input.
pub enum SpecRoot {
    Done { end: int, v: SpecValue },
    Incomplete,
}

/// The root rule: leading whitespace, then either a brace-delimited
/// object or a bare object body, then trailing whitespace. A bare body
/// always yields an object, so the root never hard-fails; an unclosed
/// top-level brace (or input that ends after only whitespace) is
/// incomplete.
pub open spec fn spec_root(s: Seq<u8>) -> SpecRoot {
    let dw = spec_ws(s, 0);
    match spec_object(s, dw as int) {
        SpecObj::Done { delta, v } => SpecRoot::Done {
            end: dw + delta + spec_ws(s, (dw + delta) as int) as int,
            v,
        },
        SpecObj::Incomplete => SpecRoot::Incomplete,
        SpecObj::Fail => {
            let r = spec_body(s, dw as int);
            SpecRoot::Done { end: dw + r.0 + spec_ws(s, (dw + r.0) as int) as int, v: r.1 }
        },
    }
}

/// Outcome of a whole-input parse.
pub enum SpecOutcome {
    /// The grammar consumed the entire input.
    Parsed(SpecValue),
    /// The grammar stopped at this byte offset with input left over.
    ExtraInput(int),
    /// The grammar ran off the end of the input.
    IncompleteInput,
}

/// A whole-input parse: the root rule must consume every byte.
pub open spec fn spec_parse(s: Seq<u8>) -> SpecOutcome {
    match spec_root(s) {
        SpecRoot::Incomplete => SpecOutcome::IncompleteInput,
        SpecRoot::Done { end, v } => if end == s.len() {
            SpecOutcome::Parsed(v)
        } else {
            SpecOutcome::ExtraInput(end)
        },
    }
}

} // verus!
