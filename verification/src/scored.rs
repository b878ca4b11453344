//! Scored documents, the order in which they rank, and what it means to
//! hold the best of a collection.

use vstd::multiset::*;
use vstd::prelude::*;
use vstd::seq_lib::*;

verus! {

/// One matching document of one partition, with the key it is sorted by.
#[derive(Clone, Copy, Debug, PartialEq, Eq, Structural)]
pub struct ScoredDocument {
    pub sort_key: u64,
    pub partition_id: u32,
    pub local_doc_id: u32,
}

impl ScoredDocument {
    /// `self` ranks strictly before `other`: its sort key is higher, or the
    /// keys are equal and its partition is lower, or those are equal too and
    /// its document identifier is lower.
    pub open spec fn ranks_before(self, other: ScoredDocument) -> bool {
        self.sort_key > other.sort_key || (self.sort_key == other.sort_key && (self.partition_id
            < other.partition_id || (self.partition_id == other.partition_id && self.local_doc_id
            < other.local_doc_id)))
    }

    /// `self` ranks before `other` or is `other`.
    pub open spec fn ranks_at_least(self, other: ScoredDocument) -> bool {
        !other.ranks_before(self)
    }

    /// Whether `self` ranks strictly before `other`.
    pub fn before(&self, other: &ScoredDocument) -> (r: bool)
        ensures
            r == self.ranks_before(*other),
    {
        self.sort_key > other.sort_key || (self.sort_key == other.sort_key && (self.partition_id
            < other.partition_id || (self.partition_id == other.partition_id && self.local_doc_id
            < other.local_doc_id)))
    }
}

/// The order is total: of two different documents exactly one ranks before
/// the other, and ranking before is transitive.
pub proof fn law_rank_is_total_order(a: ScoredDocument, b: ScoredDocument, c: ScoredDocument)
    ensures
        !a.ranks_before(a),
        a != b ==> (a.ranks_before(b) != b.ranks_before(a)),
        a.ranks_before(b) && b.ranks_before(c) ==> a.ranks_before(c),
        a.ranks_at_least(b) && b.ranks_at_least(a) ==> a == b,
{
}

/// The documents stand best first.
pub open spec fn ranked(docs: Seq<ScoredDocument>) -> bool {
    forall|i: int, j: int| 0 <= i < j < docs.len() ==> docs[i].ranks_at_least(docs[j])
}

/// `docs`, which stand best first, with `doc` put in at its rank: behind
/// the documents that rank at least as well.
pub open spec fn insert_ranked(docs: Seq<ScoredDocument>, doc: ScoredDocument) -> Seq<ScoredDocument>
    decreases docs.len(),
{
    if docs.len() == 0 {
        seq![doc]
    } else if docs.last().ranks_at_least(doc) {
        docs.push(doc)
    } else {
        insert_ranked(docs.drop_last(), doc).push(docs.last())
    }
}

/// The `k` best documents of `docs`, best first: each document in turn is
/// put in at its rank among the best so far, and what then stands behind
/// the `k`-th place is dropped.
pub open spec fn top_k(docs: Seq<ScoredDocument>, k: nat) -> Seq<ScoredDocument>
    decreases docs.len(),
{
    if docs.len() == 0 {
        Seq::empty()
    } else {
        let more = insert_ranked(top_k(docs.drop_last(), k), docs.last());
        if more.len() > k {
            more.drop_last()
        } else {
            more
        }
    }
}

/// The smaller of `k` and `n`.
pub open spec fn at_most(k: nat, n: nat) -> nat {
    if n < k {
        n
    } else {
        k
    }
}

/// `kept` holds the `k` best documents of `all`: it is part of `all`, has
/// `k` documents or all of them, and whatever it leaves out ranks no better
/// than anything it holds.
pub open spec fn retains_best(kept: Multiset<ScoredDocument>, all: Multiset<ScoredDocument>, k: nat) -> bool {
    &&& kept.subset_of(all)
    &&& kept.len() == at_most(k, all.len())
    &&& forall|h: ScoredDocument, d: ScoredDocument|
        #![trigger kept.count(h), all.count(d)]
        kept.count(h) > 0 && kept.count(d) < all.count(d) ==> h.ranks_at_least(d)
}

/// `top` is the `k` best documents of `all`, best first.
pub open spec fn is_top_k(top: Seq<ScoredDocument>, all: Multiset<ScoredDocument>, k: nat) -> bool {
    ranked(top) && retains_best(top.to_multiset(), all, k)
}

/// `w` is in `kept` and nothing in `kept` ranks behind it.
pub open spec fn is_worst(kept: Multiset<ScoredDocument>, w: ScoredDocument) -> bool {
    kept.count(w) > 0 && forall|d: ScoredDocument| kept.count(d) > 0 ==> d.ranks_at_least(w)
}

/// The document of `kept` behind which nothing in it ranks.
pub open spec fn worst(kept: Multiset<ScoredDocument>) -> ScoredDocument {
    choose|w: ScoredDocument| is_worst(kept, w)
}

/// A collection has one worst document at most.
pub proof fn lemma_worst_is_unique(kept: Multiset<ScoredDocument>, w: ScoredDocument)
    requires
        is_worst(kept, w),
    ensures
        worst(kept) == w,
{
    let v = worst(kept);
    assert(is_worst(kept, v));
    assert(v.ranks_at_least(w) && w.ranks_at_least(v));
}

/// What a bounded collection of `limit` documents holds after `doc` is
/// offered to it: `doc` is added while there is room; in a full collection
/// it replaces the worst document if it ranks before it; else nothing
/// changes.
pub open spec fn offered(kept: Multiset<ScoredDocument>, limit: nat, doc: ScoredDocument) -> Multiset<ScoredDocument> {
    if kept.len() < limit {
        kept.insert(doc)
    } else if limit > 0 && doc.ranks_before(worst(kept)) {
        kept.remove(worst(kept)).insert(doc)
    } else {
        kept
    }
}

/// A part of a collection that has as many documents as the collection is
/// the collection.
pub proof fn lemma_full_part_is_all(part: Multiset<ScoredDocument>, all: Multiset<ScoredDocument>)
    requires
        part.subset_of(all),
        part.len() == all.len(),
    ensures
        part == all,
{
    let rest = all.sub(part);
    assert(rest.len() == 0);
    assert forall|d: ScoredDocument| part.count(d) == all.count(d) by {
        assert(rest.count(d) == 0);
    }
    assert(part =~= all);
}

/// Offering a document to the best of a collection gives the best of the
/// collection with that document.
pub proof fn lemma_offer_retains_best(
    kept: Multiset<ScoredDocument>,
    all: Multiset<ScoredDocument>,
    k: nat,
    doc: ScoredDocument,
)
    requires
        retains_best(kept, all, k),
        kept.len() > 0 ==> is_worst(kept, worst(kept)),
    ensures
        retains_best(offered(kept, k, doc), all.insert(doc), k),
{
    let w = worst(kept);
    let next = offered(kept, k, doc);
    let more = all.insert(doc);
    if kept.len() < k {
        lemma_full_part_is_all(kept, all);
        assert(next =~= more);
    } else if k > 0 && doc.ranks_before(w) {
        assert(kept.count(w) > 0);
        assert(next.subset_of(more));
        assert(next.len() == k);
        assert forall|h: ScoredDocument, d: ScoredDocument|
            #![trigger next.count(h), more.count(d)]
            next.count(h) > 0 && next.count(d) < more.count(d) implies h.ranks_at_least(d) by {
            assert(h == doc || kept.count(h) > 0);
            if d == w {
            } else if d == doc {
                assert(kept.count(d) < all.count(d));
                assert(kept.count(w) > 0 && kept.count(d) < all.count(d));
            } else {
                assert(kept.count(d) < all.count(d));
                assert(kept.count(w) > 0 && kept.count(d) < all.count(d));
                if h != doc {
                    assert(kept.count(h) > 0 && kept.count(d) < all.count(d));
                }
            }
        }
    } else {
        assert(next.subset_of(more));
        assert forall|h: ScoredDocument, d: ScoredDocument|
            #![trigger next.count(h), more.count(d)]
            next.count(h) > 0 && next.count(d) < more.count(d) implies h.ranks_at_least(d) by {
            if d != doc {
                assert(kept.count(h) > 0 && kept.count(d) < all.count(d));
            } else if kept.count(d) < all.count(d) {
                assert(kept.count(h) > 0 && kept.count(d) < all.count(d));
            } else {
                assert(kept.count(h) <= kept.len());
                assert(is_worst(kept, w));
                assert(h.ranks_at_least(w));
            }
        }
    }
}

/// Where one of two collections of the same size holds more of a document
/// than the other, the other holds more of some other document.
proof fn lemma_other_surplus(
    m1: Multiset<ScoredDocument>,
    m2: Multiset<ScoredDocument>,
    d: ScoredDocument,
) -> (e: ScoredDocument)
    requires
        m1.len() == m2.len(),
        m1.count(d) > m2.count(d),
    ensures
        m2.count(e) > m1.count(e),
{
    let only1 = m1.sub(m2);
    let only2 = m2.sub(m1);
    assert(m1.add(only2) =~= m2.add(only1));
    assert(m1.add(only2).len() == m1.len() + only2.len());
    assert(m2.add(only1).len() == m2.len() + only1.len());
    assert(only1.count(d) > 0);
    assert(only1.count(d) <= only1.len());
    let e = only2.choose();
    assert(only2.count(e) > 0);
    e
}

/// A collection has one best part of each size: two parts that both hold
/// its `k` best documents hold no less of any document than the other.
proof fn lemma_best_part_holds_no_less(
    m1: Multiset<ScoredDocument>,
    m2: Multiset<ScoredDocument>,
    all: Multiset<ScoredDocument>,
    k: nat,
    d: ScoredDocument,
)
    requires
        retains_best(m1, all, k),
        retains_best(m2, all, k),
    ensures
        m1.count(d) <= m2.count(d),
{
    if m1.count(d) > m2.count(d) {
        let e = lemma_other_surplus(m1, m2, d);
        assert(m2.count(e) > 0 && m2.count(d) < all.count(d));
        assert(e.ranks_at_least(d));
        assert(m1.count(d) > 0 && m1.count(e) < all.count(e));
        assert(d.ranks_at_least(e));
        assert(d == e);
    }
}

/// The `k` best documents of a collection are one collection.
pub proof fn lemma_best_part_is_unique(
    m1: Multiset<ScoredDocument>,
    m2: Multiset<ScoredDocument>,
    all: Multiset<ScoredDocument>,
    k: nat,
)
    requires
        retains_best(m1, all, k),
        retains_best(m2, all, k),
    ensures
        m1 == m2,
{
    assert forall|d: ScoredDocument| m1.count(d) == m2.count(d) by {
        lemma_best_part_holds_no_less(m1, m2, all, k, d);
        lemma_best_part_holds_no_less(m2, m1, all, k, d);
    }
    assert(m1 =~= m2);
}

/// Documents can stand best first in one way only.
pub proof fn lemma_ranked_is_unique(s: Seq<ScoredDocument>, t: Seq<ScoredDocument>)
    requires
        ranked(s),
        ranked(t),
        s.to_multiset() == t.to_multiset(),
    ensures
        s == t,
    decreases s.len(),
{
    s.to_multiset_ensures();
    t.to_multiset_ensures();
    assert(s.len() == t.len());
    if s.len() > 0 {
        let a = s.last();
        let b = t.last();
        assert(s.contains(a));
        assert(t.contains(b));
        assert(s.to_multiset().count(a) > 0);
        assert(t.to_multiset().count(b) > 0);
        assert(t.contains(a));
        assert(s.contains(b));
        let i = choose|i: int| 0 <= i < t.len() && t[i] == a;
        let j = choose|j: int| 0 <= j < s.len() && s[j] == b;
        assert(a.ranks_at_least(b));
        assert(b.ranks_at_least(a));
        assert(a == b);
        let s0 = s.drop_last();
        let t0 = t.drop_last();
        assert(s0 =~= s.remove(s.len() - 1));
        assert(t0 =~= t.remove(t.len() - 1));
        to_multiset_remove(s, s.len() - 1);
        to_multiset_remove(t, t.len() - 1);
        lemma_ranked_is_unique(s0, t0);
        assert(s =~= s0.push(a));
        assert(t =~= t0.push(b));
    } else {
        assert(s =~= t);
    }
}

/// What the `k` best documents of a collection are, best first, is
/// determined by the collection and `k`.
pub proof fn lemma_top_k_is_unique(
    t1: Seq<ScoredDocument>,
    t2: Seq<ScoredDocument>,
    all: Multiset<ScoredDocument>,
    k: nat,
)
    requires
        is_top_k(t1, all, k),
        is_top_k(t2, all, k),
    ensures
        t1 == t2,
{
    lemma_best_part_is_unique(t1.to_multiset(), t2.to_multiset(), all, k);
    lemma_ranked_is_unique(t1, t2);
}

/// Putting a document in at its rank keeps the documents best first and
/// adds that document only; the last document is then the worse of the old
/// last one and the new one.
pub proof fn lemma_insert_ranked(docs: Seq<ScoredDocument>, doc: ScoredDocument)
    requires
        ranked(docs),
    ensures
        ranked(insert_ranked(docs, doc)),
        insert_ranked(docs, doc).len() == docs.len() + 1,
        insert_ranked(docs, doc).to_multiset() == docs.to_multiset().insert(doc),
        insert_ranked(docs, doc).last() == if docs.len() > 0 && doc.ranks_before(docs.last()) {
            docs.last()
        } else {
            doc
        },
    decreases docs.len(),
{
    let r = insert_ranked(docs, doc);
    if docs.len() == 0 {
        assert(docs =~= Seq::empty());
        to_multiset_build(docs, doc);
        assert(r =~= docs.push(doc));
    } else if docs.last().ranks_at_least(doc) {
        to_multiset_build(docs, doc);
        assert forall|i: int, j: int| 0 <= i < j < r.len() implies r[i].ranks_at_least(r[j]) by {
            if j == docs.len() {
                assert(docs[i].ranks_at_least(docs.last()));
            } else {
                assert(docs[i].ranks_at_least(docs[j]));
            }
        }
    } else {
        let front = docs.drop_last();
        let last = docs.last();
        let inner = insert_ranked(front, doc);
        assert(ranked(front)) by {
            assert forall|i: int, j: int| 0 <= i < j < front.len() implies front[i].ranks_at_least(
                front[j],
            ) by {
                assert(docs[i].ranks_at_least(docs[j]));
            }
        }
        lemma_insert_ranked(front, doc);
        assert(docs =~= front.push(last));
        to_multiset_build(front, last);
        to_multiset_build(inner, last);
        assert(r.to_multiset() =~= docs.to_multiset().insert(doc));
        inner.to_multiset_ensures();
        front.to_multiset_ensures();
        assert forall|i: int, j: int| 0 <= i < j < r.len() implies r[i].ranks_at_least(r[j]) by {
            if j == inner.len() {
                assert(inner.contains(inner[i]));
                assert(inner.to_multiset().count(inner[i]) > 0);
                if inner[i] != doc {
                    assert(front.to_multiset().count(inner[i]) > 0);
                    assert(front.contains(inner[i]));
                    let a = choose|a: int| 0 <= a < front.len() && front[a] == inner[i];
                    assert(docs[a].ranks_at_least(docs.last()));
                }
            } else {
                assert(inner[i].ranks_at_least(inner[j]));
            }
        }
    }
}

/// Of documents that stand best first, the last is the worst.
pub proof fn lemma_last_is_worst(docs: Seq<ScoredDocument>)
    requires
        ranked(docs),
        docs.len() > 0,
    ensures
        is_worst(docs.to_multiset(), docs.last()),
        worst(docs.to_multiset()) == docs.last(),
{
    docs.to_multiset_ensures();
    assert(docs.contains(docs.last()));
    assert forall|d: ScoredDocument| docs.to_multiset().count(d) > 0 implies d.ranks_at_least(
        docs.last(),
    ) by {
        assert(docs.contains(d));
        let i = choose|i: int| 0 <= i < docs.len() && docs[i] == d;
        if i < docs.len() - 1 {
            assert(docs[i].ranks_at_least(docs[docs.len() - 1]));
        }
    }
    lemma_worst_is_unique(docs.to_multiset(), docs.last());
}

/// `top_k` gives the `k` best documents, best first.
pub proof fn lemma_top_k_is_top_k(docs: Seq<ScoredDocument>, k: nat)
    ensures
        is_top_k(top_k(docs, k), docs.to_multiset(), k),
    decreases docs.len(),
{
    let r = top_k(docs, k);
    if docs.len() == 0 {
        docs.to_multiset_ensures();
        r.to_multiset_ensures();
        assert(r.to_multiset() =~= Multiset::<ScoredDocument>::empty());
        assert(docs.to_multiset().len() == 0);
        assert forall|d: ScoredDocument| r.to_multiset().count(d) <= docs.to_multiset().count(d) by {}
    } else {
        let front = docs.drop_last();
        let doc = docs.last();
        let before = top_k(front, k);
        lemma_top_k_is_top_k(front, k);
        lemma_insert_ranked(before, doc);
        let more = insert_ranked(before, doc);
        assert(docs =~= front.push(doc));
        to_multiset_build(front, doc);
        before.to_multiset_ensures();
        if before.len() > 0 {
            lemma_last_is_worst(before);
        }
        lemma_offer_retains_best(before.to_multiset(), front.to_multiset(), k, doc);
        if more.len() > k {
            assert(r =~= more.remove(more.len() - 1));
            to_multiset_remove(more, more.len() - 1);
            assert(ranked(r)) by {
                assert forall|i: int, j: int| 0 <= i < j < r.len() implies r[i].ranks_at_least(
                    r[j],
                ) by {
                    assert(more[i].ranks_at_least(more[j]));
                }
            }
            assert(r.to_multiset() =~= offered(before.to_multiset(), k, doc));
        } else {
            assert(r.to_multiset() =~= offered(before.to_multiset(), k, doc));
        }
    }
}

/// The `k` best documents of a collection, best first, are `top_k` of the
/// collection in any order.
pub proof fn lemma_top_k_determines(top: Seq<ScoredDocument>, docs: Seq<ScoredDocument>, k: nat)
    requires
        is_top_k(top, docs.to_multiset(), k),
    ensures
        top == top_k(docs, k),
{
    lemma_top_k_is_top_k(docs, k);
    lemma_top_k_is_unique(top, top_k(docs, k), docs.to_multiset(), k);
}

/// A document that the best of `a` left out ranks no better than anything
/// in the best of the best of `a` and of `b`.
proof fn lemma_left_out_of_part(
    ka: Multiset<ScoredDocument>,
    a: Multiset<ScoredDocument>,
    kb: Multiset<ScoredDocument>,
    g: Multiset<ScoredDocument>,
    k: nat,
    h: ScoredDocument,
    d: ScoredDocument,
)
    requires
        retains_best(ka, a, k),
        retains_best(g, ka.add(kb), k),
        ka.count(d) < a.count(d),
        g.count(h) > 0,
    ensures
        h.ranks_at_least(d),
{
    if d.ranks_before(h) {
        if ka.len() == a.len() {
            lemma_full_part_is_all(ka, a);
        }
        assert(ka.len() == k);
        if ka.count(h) > 0 {
            assert(ka.count(h) > 0 && ka.count(d) < a.count(d));
        }
        assert(ka.count(h) == 0);
        let x = ka.insert(h);
        assert forall|e: ScoredDocument| x.count(e) <= g.count(e) by {
            if e != h && ka.count(e) > 0 {
                assert(ka.count(e) > 0 && ka.count(d) < a.count(d));
                assert(e.ranks_at_least(d));
                if g.count(e) < ka.add(kb).count(e) {
                    assert(g.count(h) > 0 && g.count(e) < ka.add(kb).count(e));
                }
            }
        }
        assert(x.subset_of(g));
        assert(g.sub(x).len() == g.len() - x.len());
        assert(x.len() == k + 1);
        assert(g.len() <= k);
    }
}

/// The best of the best of two collections is the best of the two
/// collections together.
pub proof fn lemma_best_of_parts(
    ka: Multiset<ScoredDocument>,
    a: Multiset<ScoredDocument>,
    kb: Multiset<ScoredDocument>,
    b: Multiset<ScoredDocument>,
    g: Multiset<ScoredDocument>,
    k: nat,
)
    requires
        retains_best(ka, a, k),
        retains_best(kb, b, k),
        retains_best(g, ka.add(kb), k),
    ensures
        retains_best(g, a.add(b), k),
{
    let parts = ka.add(kb);
    let all = a.add(b);
    assert(g.subset_of(all)) by {
        assert forall|e: ScoredDocument| g.count(e) <= all.count(e) by {
            assert(g.count(e) <= parts.count(e));
            assert(ka.count(e) <= a.count(e));
            assert(kb.count(e) <= b.count(e));
        }
    }
    assert(g.len() == at_most(k, all.len()));
    assert(kb.add(ka) =~= parts);
    assert forall|h: ScoredDocument, d: ScoredDocument|
        #![trigger g.count(h), all.count(d)]
        g.count(h) > 0 && g.count(d) < all.count(d) implies h.ranks_at_least(d) by {
        if g.count(d) < parts.count(d) {
            assert(g.count(h) > 0 && g.count(d) < parts.count(d));
        } else if ka.count(d) < a.count(d) {
            lemma_left_out_of_part(ka, a, kb, g, k, h, d);
        } else {
            assert(kb.count(d) < b.count(d));
            lemma_left_out_of_part(kb, b, ka, g, k, h, d);
        }
    }
}

/// Splitting a partition changes neither the count nor the documents
/// listed: the `k` best of the `k` best of two halves are the `k` best of
/// the whole, and the matches of the halves add up to those of the whole.
pub proof fn law_split_partition(a: Seq<ScoredDocument>, b: Seq<ScoredDocument>, k: nat)
    ensures
        top_k(top_k(a, k) + top_k(b, k), k) == top_k(a + b, k),
        a.len() + b.len() == (a + b).len(),
{
    let top_a = top_k(a, k);
    let top_b = top_k(b, k);
    let merged = top_k(top_a + top_b, k);
    lemma_top_k_is_top_k(a, k);
    lemma_top_k_is_top_k(b, k);
    lemma_top_k_is_top_k(top_a + top_b, k);
    lemma_multiset_commutative(a, b);
    lemma_multiset_commutative(top_a, top_b);
    lemma_best_of_parts(
        top_a.to_multiset(),
        a.to_multiset(),
        top_b.to_multiset(),
        b.to_multiset(),
        merged.to_multiset(),
        k,
    );
    lemma_top_k_determines(merged, a + b, k);
}

/// The documents listed do not depend on the order in which the matches
/// come.
pub proof fn law_top_k_ignores_order(a: Seq<ScoredDocument>, b: Seq<ScoredDocument>, k: nat)
    requires
        a.to_multiset() == b.to_multiset(),
    ensures
        top_k(a, k) == top_k(b, k),
{
    lemma_top_k_is_top_k(a, k);
    lemma_top_k_determines(top_k(a, k), b, k);
}

/// No more than `k` documents are listed and no more than there are; they
/// stand by falling sort key; with `k` zero none is listed.
pub proof fn law_top_k_is_bounded_and_sorted(docs: Seq<ScoredDocument>, k: nat)
    ensures
        top_k(docs, k).len() <= k,
        top_k(docs, k).len() <= docs.len(),
        top_k(docs, k).len() == at_most(k, docs.len()),
        k == 0 ==> top_k(docs, k) == Seq::<ScoredDocument>::empty(),
        forall|i: int, j: int|
            0 <= i < j < top_k(docs, k).len() ==> top_k(docs, k)[i].sort_key >= top_k(
                docs,
                k,
            )[j].sort_key,
{
    let top = top_k(docs, k);
    lemma_top_k_is_top_k(docs, k);
    docs.to_multiset_ensures();
    top.to_multiset_ensures();
    if k == 0 {
        assert(top =~= Seq::<ScoredDocument>::empty());
    }
    assert forall|i: int, j: int| 0 <= i < j < top.len() implies top[i].sort_key
        >= top[j].sort_key by {
        assert(top[i].ranks_at_least(top[j]));
    }
}

} // verus!
