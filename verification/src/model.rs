//! Mathematical model of configuration values.
//!
//! A parsed document is modelled as a `SpecValue`: objects are maps from
//! key byte strings to values, arrays are sequences, and floating-point
//! numbers are carried as the literal text they were written as.

use vstd::prelude::*;

verus! {

/// Specification-level value tree. Object keys and string contents are
/// UTF-8 byte sequences; a float is represented by its literal text.
pub enum SpecValue {
    Null,
    Boolean(bool),
    Int(i64),
    Float(Seq<u8>),
    Str(Seq<u8>),
    Arr(Seq<SpecValue>),
    Obj(Map<Seq<u8>, SpecValue>),
}

/// Deep merge of two values: the overlay wins outright unless both
/// sides are objects, in which case the merge recurses key by key,
/// preserving keys that occur only in the base.
pub open spec fn spec_merge(base: SpecValue, overlay: SpecValue) -> SpecValue
    decreases overlay,
{
    match (base, overlay) {
        (SpecValue::Obj(m_old), SpecValue::Obj(m_new)) => SpecValue::Obj(
            Map::new(
                |k: Seq<u8>| m_old.dom().contains(k) || m_new.dom().contains(k),
                |k: Seq<u8>|
                    if m_new.dom().contains(k) {
                        if m_old.dom().contains(k) {
                            spec_merge(m_old[k], m_new[k])
                        } else {
                            m_new[k]
                        }
                    } else {
                        m_old[k]
                    },
            ),
        ),
        (_, n) => n,
    }
}

} // verus!
