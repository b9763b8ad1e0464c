//! The module registry handed over by the instrumentation engine, held in
//! a `rangemap::RangeMap` keyed by half-open address ranges.
//!
//! The map itself is outside code; its contents are named by
//! [`range_entries`] and every use goes through the trusted wrappers
//! below.
use vstd::prelude::*;

verus! {

#[verifier::external_type_specification]
#[verifier::external_body]
#[verifier::reject_recursive_types(K)]
#[verifier::reject_recursive_types(V)]
pub struct ExRangeMap<K, V>(rangemap::RangeMap<K, V>);

/// The contents of a module registry: for each stored range, in
/// ascending order of range start, the range's start and end and the
/// module's identifier and path bytes.
pub uninterp spec fn range_entries(m: rangemap::RangeMap<usize, (u16, String)>) -> Seq<
    (usize, usize, u16, Seq<u8>),
>;

/// Relies on `rangemap::RangeMap::new`: a freshly made map is empty, so
/// iterating it yields no entries.
#[verifier::external_body]
pub(crate) fn ranges_new() -> (r: rangemap::RangeMap<usize, (u16, String)>)
    ensures
        range_entries(r) == Seq::<(usize, usize, u16, Seq<u8>)>::empty(),
{
    rangemap::RangeMap::new()
}

/// Relies on the derived `Clone` of `rangemap::RangeMap`, which clones
/// the ordered map underneath: the copy stores the same entries in the
/// same order.
#[verifier::external_body]
pub(crate) fn ranges_clone(m: &rangemap::RangeMap<usize, (u16, String)>) -> (r:
    rangemap::RangeMap<usize, (u16, String)>)
    ensures
        range_entries(r) == range_entries(*m),
{
    m.clone()
}

/// Relies on `rangemap::RangeMap::iter`: yields every stored pair of
/// range and value, ordered by range start. Each pair is flattened to
/// plain values, the path as its UTF-8 bytes.
#[verifier::external_body]
pub(crate) fn ranges_to_entries(m: &rangemap::RangeMap<usize, (u16, String)>) -> (r: Vec<
    (usize, usize, u16, Vec<u8>),
>)
    ensures
        r@.len() == range_entries(*m).len(),
        forall|i: int|
            0 <= i < r@.len() ==> crate::trace::module_view(#[trigger] r@[i]) == range_entries(
                *m,
            )[i],
{
    m.iter().map(|(range, v)| (range.start, range.end, v.0, v.1.clone().into_bytes())).collect()
}

} // verus!
