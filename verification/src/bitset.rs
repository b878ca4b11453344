//! The set of documents of one partition as a bit set.

use tantivy::BitSet;
use vstd::prelude::*;

verus! {

/// Declares `tantivy::BitSet`; what a value of it holds is named below.
#[verifier::external_type_specification]
#[verifier::external_body]
pub struct ExBitSet(tantivy::BitSet);

/// The documents that a bit set holds.
pub uninterp spec fn bitset_docs(bits: BitSet) -> Set<u32>;

/// The bound that a bit set was made with: it takes the documents below it.
pub uninterp spec fn bitset_max_value(bits: BitSet) -> u32;

/// Calls `BitSet::with_max_value`.
///
/// Trusted: the new set is empty and takes the documents below `max_value`.
#[verifier::external_body]
pub(crate) fn bitset_with_max_value(max_value: u32) -> (r: BitSet)
    ensures
        bitset_docs(r) == Set::<u32>::empty(),
        bitset_max_value(r) == max_value,
{
    BitSet::with_max_value(max_value)
}

/// Calls `BitSet::insert`.
///
/// Trusted: a document below the bound is added to the set, which keeps
/// every other document and its bound; the call says whether the document
/// was missing before.
#[verifier::external_body]
pub(crate) fn bitset_insert(bits: &mut BitSet, el: u32) -> (r: bool)
    requires
        el < bitset_max_value(*old(bits)),
    ensures
        bitset_docs(*final(bits)) == bitset_docs(*old(bits)).insert(el),
        bitset_max_value(*final(bits)) == bitset_max_value(*old(bits)),
        r == !bitset_docs(*old(bits)).contains(el),
{
    bits.insert(el)
}

/// Calls `BitSet::contains`.
///
/// Trusted: for a document below the bound the call says whether the set
/// holds it.
#[verifier::external_body]
pub(crate) fn bitset_contains(bits: &BitSet, el: u32) -> (r: bool)
    requires
        el < bitset_max_value(*bits),
    ensures
        r == bitset_docs(*bits).contains(el),
{
    bits.contains(el)
}

} // verus!
