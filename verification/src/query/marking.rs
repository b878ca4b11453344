//! Marking documents in bit sets: the steps that the strategies of the
//! matcher are made of.

use crate::bitset::{
    bitset_contains, bitset_docs, bitset_insert, bitset_max_value, bitset_with_max_value,
};
use crate::docset::{intersection, shared_at, strictly_increasing, VecDocSet};
use crate::query::cat_query::{
    below, in_bound, is_match, is_match_set, valid_postings, InnerMatches, TermPostings,
};
use std::collections::BTreeSet;
use tantivy::BitSet;
use vstd::prelude::*;

verus! {

/// One more posting list adds the documents it holds, if its value lies
/// within the bound.
pub proof fn lemma_in_bound_step(postings: Seq<TermPostings>, n: int, left: u64, right: u64, doc: u32)
    requires
        0 <= n < postings.len(),
    ensures
        in_bound(postings, n + 1, left, right, doc) == (in_bound(postings, n, left, right, doc) || (
        left <= postings[n].value <= right && postings[n].docs@.contains(doc))),
{
    if in_bound(postings, n + 1, left, right, doc) {
        let i = choose|i: int|
            0 <= i < n + 1 && i < postings.len() && left <= (#[trigger] postings[i]).value <= right
                && postings[i].docs@.contains(doc);
        if i < n {
            assert(in_bound(postings, n, left, right, doc));
        }
    }
    if in_bound(postings, n, left, right, doc) {
        let i = choose|i: int|
            0 <= i < n && i < postings.len() && left <= (#[trigger] postings[i]).value <= right
                && postings[i].docs@.contains(doc);
        assert(0 <= i < n + 1 && left <= postings[i].value <= right);
    }
    if left <= postings[n].value <= right && postings[n].docs@.contains(doc) {
        assert(0 <= n < n + 1 && left <= postings[n].value <= right);
    }
}

/// The first `j + 1` documents are the first `j` and the one at `j`.
pub proof fn lemma_take_contains(docs: Seq<u32>, j: int, doc: u32)
    requires
        0 <= j < docs.len(),
    ensures
        docs.take(j + 1).contains(doc) == (docs.take(j).contains(doc) || docs[j] == doc),
{
    let more = docs.take(j + 1);
    let fewer = docs.take(j);
    if more.contains(doc) {
        let i = choose|i: int| 0 <= i < more.len() && more[i] == doc;
        if i < j {
            assert(fewer[i] == doc);
        }
    }
    if fewer.contains(doc) {
        let i = choose|i: int| 0 <= i < fewer.len() && fewer[i] == doc;
        assert(more[i] == doc);
    }
    if docs[j] == doc {
        assert(more[j] == doc);
    }
}

/// A list with one more document holds what it held, and that document.
pub proof fn lemma_push_contains(docs: Seq<u32>, last: u32, doc: u32)
    ensures
        docs.push(last).contains(doc) == (docs.contains(doc) || last == doc),
{
    let more = docs.push(last);
    if more.contains(doc) {
        let i = choose|i: int| 0 <= i < more.len() && more[i] == doc;
        if i < docs.len() {
            assert(docs[i] == doc);
        }
    }
    if docs.contains(doc) {
        let i = choose|i: int| 0 <= i < docs.len() && docs[i] == doc;
        assert(more[i] == doc);
    }
    if last == doc {
        assert(more[docs.len() as int] == doc);
    }
}

/// Marks every document of `docs` in `bits`.
pub(crate) fn mark_docs(bits: &mut BitSet, docs: &Vec<u32>)
    requires
        below(docs@, bitset_max_value(*old(bits))),
    ensures
        bitset_max_value(*final(bits)) == bitset_max_value(*old(bits)),
        forall|d: u32|
            #![trigger bitset_docs(*final(bits)).contains(d)]
            bitset_docs(*final(bits)).contains(d) <==> bitset_docs(*old(bits)).contains(d)
                || docs@.contains(d),
{
    let mut j: usize = 0;
    assert(docs@.take(0) =~= Seq::<u32>::empty());
    while j < docs.len()
        invariant
            j <= docs@.len(),
            below(docs@, bitset_max_value(*bits)),
            bitset_max_value(*bits) == bitset_max_value(*old(bits)),
            forall|d: u32|
                bitset_docs(*bits).contains(d) <==> bitset_docs(*old(bits)).contains(d)
                    || docs@.take(j as int).contains(d),
        decreases docs@.len() - j,
    {
        let ghost before = bitset_docs(*bits);
        bitset_insert(bits, docs[j]);
        proof {
            assert forall|d: u32|
                bitset_docs(*bits).contains(d) <==> bitset_docs(*old(bits)).contains(d)
                    || docs@.take(j + 1).contains(d) by {
                lemma_take_contains(docs@, j as int, d);
                assert(before.contains(d) <==> bitset_docs(*old(bits)).contains(d) || docs@.take(
                    j as int,
                ).contains(d));
            }
        }
        j += 1;
    }
    assert(docs@.take(docs@.len() as int) =~= docs@);
}

/// The bit set of the documents whose value lies within `[left, right]`.
pub(crate) fn range_bitset(postings: &Vec<TermPostings>, left: u64, right: u64, max_doc: u32) -> (bits: BitSet)
    requires
        valid_postings(postings@, max_doc),
    ensures
        bitset_max_value(bits) == max_doc,
        forall|d: u32|
            bitset_docs(bits).contains(d) <==> in_bound(
                postings@,
                postings@.len() as int,
                left,
                right,
                d,
            ),
{
    let mut bits = bitset_with_max_value(max_doc);
    let mut i: usize = 0;
    while i < postings.len()
        invariant
            i <= postings@.len(),
            valid_postings(postings@, max_doc),
            bitset_max_value(bits) == max_doc,
            forall|d: u32| bitset_docs(bits).contains(d) <==> in_bound(postings@, i as int, left, right, d),
        decreases postings@.len() - i,
    {
        let entry = &postings[i];
        let ghost before = bitset_docs(bits);
        if left <= entry.value && entry.value <= right {
            mark_docs(&mut bits, &entry.docs);
        }
        proof {
            assert forall|d: u32|
                bitset_docs(bits).contains(d) <==> in_bound(postings@, i + 1, left, right, d) by {
                lemma_in_bound_step(postings@, i as int, left, right, d);
                assert(before.contains(d) <==> in_bound(postings@, i as int, left, right, d));
            }
        }
        i += 1;
    }
    bits
}

/// The documents marked in `bits` that the inner tree matches, rising.
pub(crate) fn select_marked(bits: &BitSet, inner: &InnerMatches, max_doc: u32) -> (r: Vec<u32>)
    requires
        bitset_max_value(*bits) == max_doc,
        inner.valid(max_doc),
    ensures
        strictly_increasing(r@),
        forall|d: u32| r@.contains(d) <==> inner.admits(max_doc, d) && bitset_docs(*bits).contains(d),
{
    let mut r: Vec<u32> = Vec::new();
    match inner {
        InnerMatches::All => {
            let mut doc: u32 = 0;
            while doc < max_doc
                invariant
                    doc <= max_doc,
                    bitset_max_value(*bits) == max_doc,
                    strictly_increasing(r@),
                    forall|k: int| 0 <= k < r@.len() ==> r@[k] < doc,
                    forall|d: u32| r@.contains(d) <==> d < doc && bitset_docs(*bits).contains(d),
                decreases max_doc - doc,
            {
                let ghost before = r@;
                if bitset_contains(bits, doc) {
                    r.push(doc);
                    proof {
                        assert forall|d: u32| r@.contains(d) <==> d < doc + 1 && bitset_docs(
                            *bits,
                        ).contains(d) by {
                            lemma_push_contains(before, doc, d);
                        }
                    }
                }
                doc += 1;
            }
        },
        InnerMatches::Docs(docs) => {
            let mut j: usize = 0;
            assert(docs@.take(0) =~= Seq::<u32>::empty());
            while j < docs.len()
                invariant
                    j <= docs@.len(),
                    strictly_increasing(docs@),
                    below(docs@, max_doc),
                    bitset_max_value(*bits) == max_doc,
                    strictly_increasing(r@),
                    forall|d: u32|
                        r@.contains(d) <==> docs@.take(j as int).contains(d) && bitset_docs(
                            *bits,
                        ).contains(d),
                decreases docs@.len() - j,
            {
                let ghost before = r@;
                let doc = docs[j];
                if bitset_contains(bits, doc) {
                    r.push(doc);
                    proof {
                        assert forall|a: int, b: int| 0 <= a < b < r@.len() implies r@[a] < r@[b] by {
                            if b == before.len() {
                                assert(before.contains(before[a]));
                                let seen = docs@.take(j as int);
                                let k = choose|k: int| 0 <= k < seen.len() && seen[k] == before[a];
                                assert(docs@[k] < docs@[j as int]);
                            } else {
                                assert(before[a] < before[b]);
                            }
                        }
                    }
                }
                proof {
                    assert forall|d: u32|
                        r@.contains(d) <==> docs@.take(j + 1).contains(d) && bitset_docs(
                            *bits,
                        ).contains(d) by {
                        lemma_take_contains(docs@, j as int, d);
                        lemma_push_contains(before, doc, d);
                    }
                }
                j += 1;
            }
            assert(docs@.take(docs@.len() as int) =~= docs@);
        },
    }
    r
}

/// A document of a list that stays below `max_doc` is below `max_doc`.
pub proof fn lemma_below_contains(docs: Seq<u32>, max_doc: u32, doc: u32)
    requires
        below(docs, max_doc),
        docs.contains(doc),
    ensures
        doc < max_doc,
{
    let i = choose|i: int| 0 <= i < docs.len() && docs[i] == doc;
    assert(docs[i] < max_doc);
}

/// Marks in `bits` every document of `docs` that `allowed` holds.
fn mark_allowed(bits: &mut BitSet, docs: &Vec<u32>, allowed: &BitSet)
    requires
        below(docs@, bitset_max_value(*old(bits))),
        bitset_max_value(*allowed) == bitset_max_value(*old(bits)),
    ensures
        bitset_max_value(*final(bits)) == bitset_max_value(*old(bits)),
        forall|d: u32|
            #![trigger bitset_docs(*final(bits)).contains(d)]
            bitset_docs(*final(bits)).contains(d) <==> bitset_docs(*old(bits)).contains(d) || (
            docs@.contains(d) && bitset_docs(*allowed).contains(d)),
{
    let mut j: usize = 0;
    assert(docs@.take(0) =~= Seq::<u32>::empty());
    while j < docs.len()
        invariant
            j <= docs@.len(),
            below(docs@, bitset_max_value(*bits)),
            bitset_max_value(*allowed) == bitset_max_value(*bits),
            bitset_max_value(*bits) == bitset_max_value(*old(bits)),
            forall|d: u32|
                #![trigger bitset_docs(*bits).contains(d)]
                bitset_docs(*bits).contains(d) <==> bitset_docs(*old(bits)).contains(d) || (
                docs@.take(j as int).contains(d) && bitset_docs(*allowed).contains(d)),
        decreases docs@.len() - j,
    {
        let ghost before = bitset_docs(*bits);
        let doc = docs[j];
        if bitset_contains(allowed, doc) {
            bitset_insert(bits, doc);
        }
        proof {
            assert forall|d: u32|
                #![trigger bitset_docs(*bits).contains(d)]
                bitset_docs(*bits).contains(d) <==> bitset_docs(*old(bits)).contains(d) || (
                docs@.take(j + 1).contains(d) && bitset_docs(*allowed).contains(d)) by {
                lemma_take_contains(docs@, j as int, d);
                assert(before.contains(d) <==> bitset_docs(*old(bits)).contains(d) || (docs@.take(
                    j as int,
                ).contains(d) && bitset_docs(*allowed).contains(d)));
            }
        }
        j += 1;
    }
    assert(docs@.take(docs@.len() as int) =~= docs@);
}

/// Marks in `bits` every document of `docs` that `allowed` holds.
fn mark_members(bits: &mut BitSet, docs: &Vec<u32>, allowed: &BTreeSet<u32>)
    requires
        below(docs@, bitset_max_value(*old(bits))),
    ensures
        bitset_max_value(*final(bits)) == bitset_max_value(*old(bits)),
        forall|d: u32|
            #![trigger bitset_docs(*final(bits)).contains(d)]
            bitset_docs(*final(bits)).contains(d) <==> bitset_docs(*old(bits)).contains(d) || (
            docs@.contains(d) && allowed@.contains(d)),
{
    let mut j: usize = 0;
    assert(docs@.take(0) =~= Seq::<u32>::empty());
    while j < docs.len()
        invariant
            j <= docs@.len(),
            below(docs@, bitset_max_value(*bits)),
            bitset_max_value(*bits) == bitset_max_value(*old(bits)),
            forall|d: u32|
                #![trigger bitset_docs(*bits).contains(d)]
                bitset_docs(*bits).contains(d) <==> bitset_docs(*old(bits)).contains(d) || (
                docs@.take(j as int).contains(d) && allowed@.contains(d)),
        decreases docs@.len() - j,
    {
        let ghost before = bitset_docs(*bits);
        let doc = docs[j];
        if allowed.contains(&doc) {
            bitset_insert(bits, doc);
        }
        proof {
            assert forall|d: u32|
                #![trigger bitset_docs(*bits).contains(d)]
                bitset_docs(*bits).contains(d) <==> bitset_docs(*old(bits)).contains(d) || (
                docs@.take(j + 1).contains(d) && allowed@.contains(d)) by {
                lemma_take_contains(docs@, j as int, d);
                assert(before.contains(d) <==> bitset_docs(*old(bits)).contains(d) || (docs@.take(
                    j as int,
                ).contains(d) && allowed@.contains(d)));
            }
        }
        j += 1;
    }
    assert(docs@.take(docs@.len() as int) =~= docs@);
}

/// The inner matches as an ordered set.
pub(crate) fn member_set(docs: &Vec<u32>) -> (r: BTreeSet<u32>)
    ensures
        forall|d: u32| r@.contains(d) <==> docs@.contains(d),
{
    let mut r: BTreeSet<u32> = BTreeSet::new();
    let mut j: usize = 0;
    assert(docs@.take(0) =~= Seq::<u32>::empty());
    while j < docs.len()
        invariant
            j <= docs@.len(),
            forall|d: u32| r@.contains(d) <==> docs@.take(j as int).contains(d),
        decreases docs@.len() - j,
    {
        let ghost before = r@;
        r.insert(docs[j]);
        proof {
            assert forall|d: u32| r@.contains(d) <==> docs@.take(j + 1).contains(d) by {
                lemma_take_contains(docs@, j as int, d);
                assert(before.contains(d) <==> docs@.take(j as int).contains(d));
            }
        }
        j += 1;
    }
    assert(docs@.take(docs@.len() as int) =~= docs@);
    r
}

/// Whether a posting list is that of a value between `lo` and `hi` and
/// holds `doc`.
pub open spec fn in_span(postings: Seq<TermPostings>, lo: int, hi: int, doc: u32) -> bool {
    exists|i: int|
        0 <= i < postings.len() && lo <= (#[trigger] postings[i]).value <= hi
            && postings[i].docs@.contains(doc)
}

/// Looking at all the posting lists, `in_bound` and `in_span` agree.
pub proof fn lemma_in_bound_is_in_span(postings: Seq<TermPostings>, left: u64, right: u64, doc: u32)
    ensures
        in_bound(postings, postings.len() as int, left, right, doc) == in_span(
            postings,
            left as int,
            right as int,
            doc,
        ),
{
    if in_bound(postings, postings.len() as int, left, right, doc) {
        let i = choose|i: int|
            0 <= i < postings.len() && i < postings.len() && left <= (#[trigger] postings[i]).value
                <= right && postings[i].docs@.contains(doc);
        assert(left <= postings[i].value <= right);
    }
    if in_span(postings, left as int, right as int, doc) {
        let i = choose|i: int|
            0 <= i < postings.len() && left <= (#[trigger] postings[i]).value <= right
                && postings[i].docs@.contains(doc);
        assert(0 <= i < postings.len() && left <= postings[i].value <= right);
    }
}

/// The posting list of `value`, if the dictionary has one.
pub(crate) fn find_value(postings: &Vec<TermPostings>, value: u64) -> (r: Option<usize>)
    requires
        forall|i: int, j: int|
            0 <= i < j < postings@.len() ==> (#[trigger] postings@[i]).value < (
            #[trigger] postings@[j]).value,
    ensures
        match r {
            Some(i) => i < postings@.len() && postings@[i as int].value == value,
            None => forall|i: int| 0 <= i < postings@.len() ==> (#[trigger] postings@[i]).value != value,
        },
{
    let mut lo: usize = 0;
    let mut hi: usize = postings.len();
    while lo < hi
        invariant
            lo <= hi <= postings@.len(),
            forall|i: int, j: int|
                0 <= i < j < postings@.len() ==> (#[trigger] postings@[i]).value < (
                #[trigger] postings@[j]).value,
            forall|i: int| 0 <= i < lo ==> (#[trigger] postings@[i]).value < value,
            forall|i: int| hi <= i < postings@.len() ==> (#[trigger] postings@[i]).value > value,
        decreases hi - lo,
    {
        let mid: usize = lo + (hi - lo) / 2;
        let found = postings[mid].value;
        if found == value {
            return Some(mid);
        }
        if found < value {
            assert forall|i: int| 0 <= i < mid + 1 implies (#[trigger] postings@[i]).value < value by {
                if i < mid {
                    assert(postings@[i].value < postings@[mid as int].value);
                }
            }
            lo = mid + 1;
        } else {
            assert forall|i: int| mid <= i < postings@.len() implies (#[trigger] postings@[i]).value
                > value by {
                if i > mid {
                    assert(postings@[mid as int].value < postings@[i].value);
                }
            }
            hi = mid;
        }
    }
    None
}

/// Marks in `bits` every document that `docs` and `others` share, walking
/// the two lists side by side.
fn mark_shared(bits: &mut BitSet, docs: &Vec<u32>, others: &Vec<u32>)
    requires
        strictly_increasing(docs@),
        strictly_increasing(others@),
        below(docs@, bitset_max_value(*old(bits))),
    ensures
        bitset_max_value(*final(bits)) == bitset_max_value(*old(bits)),
        forall|d: u32|
            #![trigger bitset_docs(*final(bits)).contains(d)]
            bitset_docs(*final(bits)).contains(d) <==> bitset_docs(*old(bits)).contains(d) || (
            docs@.contains(d) && others@.contains(d)),
{
    let docs_copy = docs.clone();
    let others_copy = others.clone();
    assert(docs_copy@ =~= docs@);
    assert(others_copy@ =~= others@);
    let mut left = match VecDocSet::new(docs_copy) {
        Some(set) => set,
        None => {
            return ;
        },
    };
    let mut right = match VecDocSet::new(others_copy) {
        Some(set) => set,
        None => {
            return ;
        },
    };
    proof {
        use_type_invariant(&left);
        use_type_invariant(&right);
        left.lemma_position_in_range();
        right.lemma_position_in_range();
    }
    let ghost mut seen: int = 0;
    let mut done = false;
    assert(docs@.take(0) =~= Seq::<u32>::empty());
    while !done
        invariant
            left.docs() == docs@,
            right.docs() == others@,
            strictly_increasing(docs@),
            strictly_increasing(others@),
            below(docs@, bitset_max_value(*bits)),
            bitset_max_value(*bits) == bitset_max_value(*old(bits)),
            0 <= seen <= docs@.len(),
            !done ==> seen == left.position() + 1,
            -1 <= right.position(),
            forall|d: u32|
                #![trigger bitset_docs(*bits).contains(d)]
                bitset_docs(*bits).contains(d) <==> bitset_docs(*old(bits)).contains(d) || (
                docs@.take(seen).contains(d) && others@.contains(d)),
            !done ==> forall|i: int, j: int|
                #[trigger] shared_at(docs@, others@, seen, 0, i, j) ==> right.position() <= j,
            done ==> forall|i: int, j: int| !#[trigger] shared_at(docs@, others@, seen, 0, i, j),
        decreases
                if done {
                    0
                } else {
                    docs@.len() - left.position() + 1
                },
    {
        let ghost before = bitset_docs(*bits);
        let ghost from_left = seen;
        let ghost from_right = right.position();
        proof {
            use_type_invariant(&left);
            use_type_invariant(&right);
            left.lemma_position_in_range();
            right.lemma_position_in_range();
        }
        if intersection(&mut left, &mut right) {
            let doc = left.doc();
            bitset_insert(bits, doc);
            proof {
                let at_left = left.position();
                let at_right = right.position();
                assert(shared_at(docs@, others@, from_left, from_right, at_left, at_right));
                assert forall|i: int, j: int| #[trigger]
                    shared_at(docs@, others@, at_left + 1, 0, i, j) implies at_right <= j by {
                    assert(shared_at(docs@, others@, from_left, 0, i, j));
                    assert(shared_at(docs@, others@, from_left, from_right, i, j));
                }
                assert forall|d: u32|
                    #![trigger bitset_docs(*bits).contains(d)]
                    bitset_docs(*bits).contains(d) <==> bitset_docs(*old(bits)).contains(d) || (
                    docs@.take(at_left + 1).contains(d) && others@.contains(d)) by {
                    assert(before.contains(d) <==> bitset_docs(*old(bits)).contains(d) || (
                    docs@.take(from_left).contains(d) && others@.contains(d)));
                    let more = docs@.take(at_left + 1);
                    let fewer = docs@.take(from_left);
                    if d == doc {
                        assert(more[at_left] == d);
                        assert(others@[at_right] == d);
                    }
                    if fewer.contains(d) {
                        let i = choose|i: int| 0 <= i < fewer.len() && fewer[i] == d;
                        assert(more[i] == d);
                    }
                    if more.contains(d) && others@.contains(d) && d != doc {
                        let i = choose|i: int| 0 <= i < more.len() && more[i] == d;
                        let j = choose|j: int| 0 <= j < others@.len() && others@[j] == d;
                        if i >= from_left {
                            assert(shared_at(docs@, others@, from_left, 0, i, j));
                            assert(shared_at(docs@, others@, from_left, from_right, i, j));
                        } else {
                            assert(fewer[i] == d);
                        }
                    }
                }
                seen = at_left + 1;
            }
        } else {
            proof {
                assert forall|i: int, j: int| !#[trigger] shared_at(docs@, others@, seen, 0, i, j) by {
                    if shared_at(docs@, others@, seen, 0, i, j) {
                        assert(shared_at(docs@, others@, from_left, from_right, i, j));
                    }
                }
            }
            done = true;
        }
    }
    proof {
        assert forall|d: u32|
            #![trigger bitset_docs(*bits).contains(d)]
            bitset_docs(*bits).contains(d) <==> bitset_docs(*old(bits)).contains(d) || (
            docs@.contains(d) && others@.contains(d)) by {
            let fewer = docs@.take(seen);
            if fewer.contains(d) {
                let i = choose|i: int| 0 <= i < fewer.len() && fewer[i] == d;
                assert(docs@[i] == d);
            }
            if docs@.contains(d) && others@.contains(d) {
                let i = choose|i: int| 0 <= i < docs@.len() && docs@[i] == d;
                let j = choose|j: int| 0 <= j < others@.len() && others@[j] == d;
                if i >= seen {
                    assert(shared_at(docs@, others@, seen, 0, i, j));
                } else {
                    assert(fewer[i] == d);
                }
            }
        }
    }
}

/// The inner matches, held in one of the forms that a strategy asks them
/// in.
pub(crate) enum Held<'a> {
    /// The rising list itself, walked side by side with a posting list.
    Listed(&'a Vec<u32>),
    /// An ordered set.
    Ordered(&'a BTreeSet<u32>),
    /// A bit set.
    Marked(&'a BitSet),
}

impl<'a> Held<'a> {
    /// Whether the form holds `doc`.
    pub(crate) open spec fn holds(self, doc: u32) -> bool {
        match self {
            Held::Listed(docs) => docs@.contains(doc),
            Held::Ordered(members) => members@.contains(doc),
            Held::Marked(bits) => bitset_docs(*bits).contains(doc),
        }
    }

    /// The form can be asked about the documents of a partition of
    /// `max_doc` documents.
    pub(crate) open spec fn fits(self, max_doc: u32) -> bool {
        match self {
            Held::Listed(docs) => strictly_increasing(docs@),
            Held::Ordered(_) => true,
            Held::Marked(bits) => bitset_max_value(*bits) == max_doc,
        }
    }
}

/// Marks in `bits` every document of `docs` that `held` holds.
fn mark_held(bits: &mut BitSet, docs: &Vec<u32>, held: &Held)
    requires
        strictly_increasing(docs@),
        below(docs@, bitset_max_value(*old(bits))),
        held.fits(bitset_max_value(*old(bits))),
    ensures
        bitset_max_value(*final(bits)) == bitset_max_value(*old(bits)),
        forall|d: u32|
            #![trigger bitset_docs(*final(bits)).contains(d)]
            bitset_docs(*final(bits)).contains(d) <==> bitset_docs(*old(bits)).contains(d) || (
            docs@.contains(d) && held.holds(d)),
{
    match held {
        Held::Listed(others) => mark_shared(bits, docs, others),
        Held::Ordered(members) => mark_members(bits, docs, members),
        Held::Marked(allowed) => mark_allowed(bits, docs, allowed),
    }
}

/// The match set where the inner matches are `docs`, which `held` holds in
/// another form: the documents within the bound that `held` holds are
/// marked in a bit set and read off it, rising.
pub(crate) fn select_held(
    postings: &Vec<TermPostings>,
    left: u64,
    right: u64,
    max_doc: u32,
    docs: &Vec<u32>,
    held: &Held,
) -> (r: Vec<u32>)
    requires
        valid_postings(postings@, max_doc),
        strictly_increasing(docs@),
        below(docs@, max_doc),
        held.fits(max_doc),
        forall|d: u32| held.holds(d) <==> docs@.contains(d),
    ensures
        is_match_set(r@, postings@, InnerMatches::Docs(*docs), max_doc, left, right),
{
    let mut bits = bitset_with_max_value(max_doc);
    let mut i: usize = 0;
    while i < postings.len()
        invariant
            i <= postings@.len(),
            valid_postings(postings@, max_doc),
            held.fits(max_doc),
            forall|d: u32| held.holds(d) <==> docs@.contains(d),
            bitset_max_value(bits) == max_doc,
            forall|d: u32|
                bitset_docs(bits).contains(d) <==> docs@.contains(d) && in_bound(
                    postings@,
                    i as int,
                    left,
                    right,
                    d,
                ),
        decreases postings@.len() - i,
    {
        let entry = &postings[i];
        let ghost before = bitset_docs(bits);
        if left <= entry.value && entry.value <= right {
            mark_held(&mut bits, &entry.docs, held);
        }
        proof {
            assert forall|d: u32|
                bitset_docs(bits).contains(d) <==> docs@.contains(d) && in_bound(
                    postings@,
                    i + 1,
                    left,
                    right,
                    d,
                ) by {
                lemma_in_bound_step(postings@, i as int, left, right, d);
                assert(before.contains(d) <==> docs@.contains(d) && in_bound(
                    postings@,
                    i as int,
                    left,
                    right,
                    d,
                ));
                if left <= entry.value && entry.value <= right {
                    assert(bitset_docs(bits).contains(d) <==> before.contains(d) || (
                    entry.docs@.contains(d) && held.holds(d)));
                }
            }
        }
        i += 1;
    }
    let everything = InnerMatches::All;
    let r = select_marked(&bits, &everything, max_doc);
    proof {
        assert forall|d: u32|
            r@.contains(d) <==> is_match(
                postings@,
                InnerMatches::Docs(*docs),
                max_doc,
                left,
                right,
                d,
            ) by {
            if docs@.contains(d) {
                lemma_below_contains(docs@, max_doc, d);
            }
        }
    }
    r
}

} // verus!
