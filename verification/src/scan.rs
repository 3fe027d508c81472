//! Executable lexical scanners, each proved to agree with its
//! specification rule in `grammar`.

use vstd::prelude::*;

use crate::grammar::SpecEsc;
use crate::grammar::is_unquoted_break;
use crate::grammar::sep_step;
use crate::grammar::spec_digits_len;
use crate::grammar::spec_escaped;
use crate::grammar::spec_find_triple;
use crate::grammar::spec_sep;
use crate::grammar::spec_sep_scan;
use crate::grammar::spec_unquoted_len;
use crate::grammar::spec_ws;
use crate::grammar::spec_ws_scan;

verus! {

/// Outcome of scanning the inside of a quoted string.
#[derive(Debug, PartialEq)]
pub enum EscStep {
    /// `next` is the index of the closing quote; `text` the contents
    /// with `\"` escapes resolved.
    Done { next: usize, text: Vec<u8> },
    /// A literal newline appeared before the closing quote.
    Fail,
    /// The input ended before the closing quote.
    Incomplete,
}

/// Consume whitespace and comments starting at `i`; returns the first
/// position that is not inside whitespace or a comment. Never fails.
pub fn json_whitespace(s: &[u8], i: usize) -> (r: usize)
    requires
        i <= s@.len(),
    ensures
        r as int == i + spec_ws(s@, i as int),
        i <= r <= s@.len(),
{
    let len = s.len();
    let mut j = i;
    let mut in_comment = false;
    loop
        invariant
            i <= j <= len,
            len == s@.len(),
            i + spec_ws(s@, i as int) == j + spec_ws_scan(s@, j as int, in_comment),
        ensures
            i <= j <= len,
            j as int == i + spec_ws(s@, i as int),
        decreases len - j,
    {
        if j >= len {
            break ;
        }
        let c = s[j];
        if in_comment {
            if c == 10 {
                in_comment = false;
            }
            j = j + 1;
        } else if c == 32 || c == 9 || c == 10 {
            j = j + 1;
        } else if c == 35 {
            in_comment = true;
            j = j + 1;
        } else if c == 47 && j + 1 < len && s[j + 1] == 47 {
            in_comment = true;
            j = j + 2;
        } else {
            break ;
        }
    }
    j
}

/// The inferred-comma rule: consume spaces, tabs, comments, newlines
/// and at most one comma; succeed only if at least one newline or comma
/// was seen, returning the position after the consumed separator.
pub fn inferrable_comma(s: &[u8], i: usize) -> (r: Option<usize>)
    requires
        i <= s@.len(),
    ensures
        ({
            let sep = spec_sep(s@, i as int);
            match r {
                Option::Some(j) => sep.1 && j as int == i + sep.0 && i < j <= s@.len(),
                Option::None => !sep.1,
            }
        }),
{
    let len = s.len();
    let mut j = i;
    let mut seen_nl = false;
    let mut seen_comma = false;
    let mut in_comment = false;
    loop
        invariant
            i <= j <= len,
            len == s@.len(),
            spec_sep(s@, i as int) == sep_step(
                (j - i) as nat,
                spec_sep_scan(s@, j as int, seen_nl, seen_comma, in_comment),
            ),
            (seen_nl || seen_comma) ==> j > i,
        ensures
            i <= j <= len,
            spec_sep(s@, i as int) == (((j - i) as nat, seen_nl || seen_comma)),
            (seen_nl || seen_comma) ==> j > i,
        decreases len - j,
    {
        if j >= len {
            break ;
        }
        let c = s[j];
        if in_comment {
            if c == 10 {
                seen_nl = true;
                in_comment = false;
            }
            j = j + 1;
        } else if c == 32 || c == 9 {
            j = j + 1;
        } else if c == 10 {
            seen_nl = true;
            j = j + 1;
        } else if c == 35 {
            in_comment = true;
            j = j + 1;
        } else if c == 47 && j + 1 < len && s[j + 1] == 47 {
            in_comment = true;
            j = j + 2;
        } else if c == 44 && !seen_comma {
            seen_comma = true;
            j = j + 1;
        } else {
            break ;
        }
    }
    if seen_nl || seen_comma {
        Option::Some(j)
    } else {
        Option::None
    }
}

/// End of the unquoted token starting at `i`; equal to `i` when no
/// unquoted token starts here.
pub fn unquoted_string(s: &[u8], i: usize, allow_dot: bool) -> (r: usize)
    requires
        i <= s@.len(),
    ensures
        r as int == i + spec_unquoted_len(s@, i as int, allow_dot),
        i <= r <= s@.len(),
{
    let len = s.len();
    let mut j = i;
    loop
        invariant
            i <= j <= len,
            len == s@.len(),
            i + spec_unquoted_len(s@, i as int, allow_dot) == j + spec_unquoted_len(
                s@,
                j as int,
                allow_dot,
            ),
        ensures
            i <= j <= len,
            j as int == i + spec_unquoted_len(s@, i as int, allow_dot),
        decreases len - j,
    {
        if j >= len {
            break ;
        }
        let c = s[j];
        if c == 47 && j + 1 < len && s[j + 1] == 47 {
            break ;
        } else if is_unquoted_break_exec(c) {
            break ;
        } else if c == 46 && !allow_dot {
            break ;
        } else {
            j = j + 1;
        }
    }
    j
}

/// Whether `c` ends an unquoted token.
pub fn is_unquoted_break_exec(c: u8) -> (r: bool)
    ensures
        r == is_unquoted_break(c),
{
    c == 36 || c == 34 || c == 123 || c == 125 || c == 91 || c == 93 || c == 58 || c == 61 || c
        == 44 || c == 43 || c == 35 || c == 96 || c == 94 || c == 63 || c == 33 || c == 64 || c
        == 42 || c == 38 || c == 92 || c == 32 || c == 9 || c == 10 || c == 13 || c == 39
}

/// Scan the inside of a quoted string starting at `i` (just after the
/// opening quote). The only escape is `\"`; a literal newline fails;
/// reaching the end of the input without a closing quote is incomplete.
pub fn escaped_string(s: &[u8], i: usize) -> (r: EscStep)
    requires
        i <= s@.len(),
    ensures
        ({
            match spec_escaped(s@, i as int) {
                SpecEsc::Done { delta, text } => r matches EscStep::Done { next, text: t }
                    && next as int == i + delta && t@ == text && i <= next < s@.len(),
                SpecEsc::Fail => r is Fail,
                SpecEsc::Incomplete => r is Incomplete,
            }
        }),
{
    let len = s.len();
    let mut j = i;
    let mut acc: Vec<u8> = Vec::new();
    loop
        invariant
            i <= j <= len,
            len == s@.len(),
            ({
                match spec_escaped(s@, j as int) {
                    SpecEsc::Done { delta, text } => spec_escaped(s@, i as int) matches
                        SpecEsc::Done { delta: d0, text: t0 } && d0 == j - i + delta && t0 == acc@
                        + text,
                    SpecEsc::Fail => spec_escaped(s@, i as int) is Fail,
                    SpecEsc::Incomplete => spec_escaped(s@, i as int) is Incomplete,
                }
            }),
        decreases len - j,
    {
        if j >= len {
            return EscStep::Incomplete;
        }
        let c = s[j];
        if c == 92 && j + 1 < len && s[j + 1] == 34 {
            acc.push(34);
            proof {
                assert(acc@ =~= acc@.subrange(0, acc@.len() - 1) + seq![34u8]);
            }
            j = j + 2;
        } else if c == 34 {
            proof {
                assert(acc@ + Seq::<u8>::empty() =~= acc@);
            }
            return EscStep::Done { next: j, text: acc };
        } else if c == 10 {
            return EscStep::Fail;
        } else {
            acc.push(c);
            proof {
                assert(acc@ =~= acc@.subrange(0, acc@.len() - 1) + seq![s@[j as int]]);
            }
            j = j + 1;
        }
    }
}

/// Position of the earliest `"""` at or after `i`, if any.
pub fn find_triple(s: &[u8], i: usize) -> (r: Option<usize>)
    requires
        i <= s@.len(),
    ensures
        ({
            match spec_find_triple(s@, i as int) {
                Option::Some(d) => r matches Option::Some(j) && j as int == i + d && i <= j && j + 3
                    <= s@.len(),
                Option::None => r is None,
            }
        }),
{
    let len = s.len();
    let mut j = i;
    loop
        invariant
            i <= j <= len,
            len == s@.len(),
            ({
                match spec_find_triple(s@, j as int) {
                    Option::Some(d) => spec_find_triple(s@, i as int) == Option::Some(
                        ((j - i) + d) as nat,
                    ),
                    Option::None => spec_find_triple(s@, i as int) is None,
                }
            }),
        decreases len - j,
    {
        if j >= len || len - j < 3 {
            return Option::None;
        }
        if s[j] == 34 && s[j + 1] == 34 && s[j + 2] == 34 {
            return Option::Some(j);
        }
        j = j + 1;
    }
}

/// End of the run of decimal digits starting at `i`; every byte scanned
/// over is a digit.
pub fn digits_end(s: &[u8], i: usize) -> (r: usize)
    requires
        i <= s@.len(),
    ensures
        r as int == i + spec_digits_len(s@, i as int),
        i <= r <= s@.len(),
        forall|k: int| i <= k < r ==> 48 <= #[trigger] s@[k] <= 57,
{
    let len = s.len();
    let mut j = i;
    loop
        invariant
            i <= j <= len,
            len == s@.len(),
            i + spec_digits_len(s@, i as int) == j + spec_digits_len(s@, j as int),
            forall|k: int| i <= k < j ==> 48 <= #[trigger] s@[k] <= 57,
        ensures
            i <= j <= len,
            j as int == i + spec_digits_len(s@, i as int),
            forall|k: int| i <= k < j ==> 48 <= #[trigger] s@[k] <= 57,
        decreases len - j,
    {
        if j >= len {
            break ;
        }
        let c = s[j];
        if 48 <= c && c <= 57 {
            j = j + 1;
        } else {
            break ;
        }
    }
    j
}

} // verus!
