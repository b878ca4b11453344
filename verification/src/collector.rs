//! The bounded top-K collector: the best documents of one partition with the
//! number of its matches, and the merge of the partitions' results.

use crate::bounded_heap::BoundedHeap;
use crate::scored::{
    is_top_k, lemma_offer_retains_best, lemma_top_k_determines, ranked, retains_best, top_k,
    ScoredDocument,
};
use vstd::multiset::*;
use vstd::prelude::*;
use vstd::seq_lib::*;

verus! {

/// What one partition contributes: its best documents, best first, and the
/// number of documents that matched in it.
#[derive(Debug, PartialEq, Eq)]
pub struct PartitionResult {
    ordered_docs: Vec<ScoredDocument>,
    match_count: u64,
}

impl PartitionResult {
    /// The documents, best first.
    pub closed spec fn docs(&self) -> Seq<ScoredDocument> {
        self.ordered_docs@
    }

    /// The number of matches.
    pub closed spec fn count(&self) -> nat {
        self.match_count as nat
    }

    /// A partition lists no more documents than matched in it. Every
    /// result is so.
    #[verifier::type_invariant]
    pub closed spec fn wf(&self) -> bool {
        self.ordered_docs@.len() <= self.match_count
    }

    /// A result lists no more documents than it counts.
    pub proof fn lemma_lists_no_more_than_matched(&self)
        requires
            self.wf(),
        ensures
            self.docs().len() <= self.count(),
    {
    }

    /// A result of `ordered_docs` and `match_count`, unless it would list
    /// more documents than matched.
    pub fn new(ordered_docs: Vec<ScoredDocument>, match_count: u64) -> (r: Option<PartitionResult>)
        ensures
            match r {
                Some(p) => p.docs() == ordered_docs@ && p.count() == match_count,
                None => ordered_docs@.len() > match_count,
            },
    {
        if ordered_docs.len() as u64 <= match_count {
            Some(PartitionResult { ordered_docs, match_count })
        } else {
            None
        }
    }

    /// The documents, best first.
    pub fn ordered_docs(&self) -> (r: &Vec<ScoredDocument>)
        ensures
            r@ == self.docs(),
    {
        &self.ordered_docs
    }

    /// The number of matches.
    pub fn match_count(&self) -> (r: u64)
        ensures
            r == self.count(),
    {
        self.match_count
    }
}

/// The answer to a query: the best documents of all partitions, best first,
/// and the number of documents that matched in all of them.
#[derive(Debug, PartialEq, Eq)]
pub struct GlobalResult {
    pub ordered_docs: Vec<ScoredDocument>,
    pub total_match_count: u64,
}

/// Documents that stand best first stand by falling sort key.
pub proof fn lemma_ranked_by_sort_key(docs: Seq<ScoredDocument>)
    requires
        ranked(docs),
    ensures
        forall|i: int, j: int| 0 <= i < j < docs.len() ==> docs[i].sort_key >= docs[j].sort_key,
{
    assert forall|i: int, j: int| 0 <= i < j < docs.len() implies docs[i].sort_key
        >= docs[j].sort_key by {
        assert(docs[i].ranks_at_least(docs[j]));
    }
}

/// Collects the matches of one partition: counts every one of them and
/// keeps the best.
pub struct SegmentCollector {
    partition_id: u32,
    heap: BoundedHeap,
    count: u64,
    seen: Ghost<Seq<ScoredDocument>>,
}

impl SegmentCollector {
    /// The documents collected so far, in the order they came.
    pub closed spec fn seen(&self) -> Seq<ScoredDocument> {
        self.seen@
    }

    /// The number of documents that the result will list at most.
    pub closed spec fn limit(&self) -> nat {
        self.heap.limit()
    }

    /// The partition whose matches are collected.
    pub closed spec fn partition(&self) -> u32 {
        self.partition_id
    }

    /// The collector has counted what it has seen and keeps the best of it.
    /// Every collector is so.
    #[verifier::type_invariant]
    pub closed spec fn wf(&self) -> bool {
        &&& self.count == self.seen@.len()
        &&& retains_best(self.heap.contents(), self.seen@.to_multiset(), self.heap.limit())
    }

    /// A collector for the partition `partition_id` that keeps `limit`
    /// documents.
    pub fn new(partition_id: u32, limit: usize) -> (r: SegmentCollector)
        ensures
            r.seen() == Seq::<ScoredDocument>::empty(),
            r.limit() == limit,
            r.partition() == partition_id,
    {
        broadcast use group_to_multiset_ensures;

        let r = SegmentCollector {
            partition_id,
            heap: BoundedHeap::new(limit),
            count: 0,
            seen: Ghost(Seq::empty()),
        };
        assert(r.seen@.to_multiset() =~= Multiset::<ScoredDocument>::empty());
        r
    }

    /// Collects the matching document `doc`, whose sort key is `sort_key`.
    pub fn collect(&mut self, doc: u32, sort_key: u64)
        requires
            old(self).seen().len() < u64::MAX,
        ensures
            final(self).limit() == old(self).limit(),
            final(self).partition() == old(self).partition(),
            final(self).seen() == old(self).seen().push(
                ScoredDocument { sort_key, partition_id: old(self).partition(), local_doc_id: doc },
            ),
    {
        broadcast use group_to_multiset_ensures;

        proof {
            use_type_invariant(&*self);
        }
        let mut taken = SegmentCollector {
            partition_id: self.partition_id,
            heap: BoundedHeap::new(0),
            count: 0,
            seen: Ghost(Seq::empty()),
        };
        core::mem::swap(self, &mut taken);
        let scored = ScoredDocument { sort_key, partition_id: taken.partition_id, local_doc_id: doc };
        let mut heap = taken.heap;
        proof {
            use_type_invariant(&heap);
            heap.lemma_has_worst();
            lemma_offer_retains_best(heap.contents(), taken.seen@.to_multiset(), heap.limit(), scored);
            to_multiset_build(taken.seen@, scored);
        }
        heap.offer(scored);
        *self = SegmentCollector {
            partition_id: taken.partition_id,
            heap,
            count: taken.count + 1,
            seen: Ghost(taken.seen@.push(scored)),
        };
    }

    /// The partition's result: the number of documents collected, and the
    /// best of them, best first.
    pub fn harvest(self) -> (r: PartitionResult)
        ensures
            r.count() == self.seen().len(),
            r.docs() == top_k(self.seen(), self.limit()),
            is_top_k(r.docs(), self.seen().to_multiset(), self.limit()),
    {
        broadcast use group_to_multiset_ensures;

        proof {
            use_type_invariant(&self);
        }
        let ordered_docs = self.heap.into_sorted_vec();
        proof {
            lemma_top_k_determines(ordered_docs@, self.seen@, self.heap.limit());
        }
        PartitionResult { ordered_docs, match_count: self.count }
    }
}

/// The scored documents of the matches `docs` of the partition
/// `partition_id`, each with the sort key that `sort_keys` holds for it.
pub open spec fn scored_matches(partition_id: u32, docs: Seq<u32>, sort_keys: Seq<u64>) -> Seq<ScoredDocument> {
    Seq::new(
        docs.len(),
        |i: int| ScoredDocument { sort_key: sort_keys[docs[i] as int], partition_id, local_doc_id: docs[i] },
    )
}

/// Collects the matches `docs` of one partition; `sort_keys` holds the sort
/// key of each document of the partition, by document identifier.
pub fn collect_partition(partition_id: u32, docs: &Vec<u32>, sort_keys: &Vec<u64>, limit: usize) -> (r:
    PartitionResult)
    requires
        forall|i: int| 0 <= i < docs@.len() ==> docs@[i] < sort_keys@.len(),
    ensures
        r.count() == docs@.len(),
        r.docs() == top_k(scored_matches(partition_id, docs@, sort_keys@), limit as nat),
        is_top_k(r.docs(), scored_matches(partition_id, docs@, sort_keys@).to_multiset(), limit as nat),
{
    let mut collector = SegmentCollector::new(partition_id, limit);
    let mut i: usize = 0;
    while i < docs.len()
        invariant
            i <= docs@.len(),
            forall|j: int| 0 <= j < docs@.len() ==> docs@[j] < sort_keys@.len(),
            collector.limit() == limit,
            collector.partition() == partition_id,
            collector.seen() == scored_matches(partition_id, docs@, sort_keys@).take(i as int),
        decreases docs@.len() - i,
    {
        let doc = docs[i];
        collector.collect(doc, sort_keys[doc as usize]);
        assert(collector.seen() =~= scored_matches(partition_id, docs@, sort_keys@).take(i + 1));
        i += 1;
    }
    assert(collector.seen() =~= scored_matches(partition_id, docs@, sort_keys@));
    collector.harvest()
}

/// Collects the matches of one partition as [`collect_partition`] does, or
/// gives `None` where a match has no sort key.
pub fn try_collect_partition(partition_id: u32, docs: &Vec<u32>, sort_keys: &Vec<u64>, limit: usize) -> (r:
    Option<PartitionResult>)
    ensures
        match r {
            Some(result) => {
                &&& forall|i: int| 0 <= i < docs@.len() ==> docs@[i] < sort_keys@.len()
                &&& result.count() == docs@.len()
                &&& result.docs() == top_k(
                    scored_matches(partition_id, docs@, sort_keys@),
                    limit as nat,
                )
            },
            None => exists|i: int| 0 <= i < docs@.len() && docs@[i] >= sort_keys@.len(),
        },
{
    let mut i: usize = 0;
    while i < docs.len()
        invariant
            i <= docs@.len(),
            forall|j: int| 0 <= j < i ==> docs@[j] < sort_keys@.len(),
        decreases docs@.len() - i,
    {
        if docs[i] as usize >= sort_keys.len() {
            return None;
        }
        i += 1;
    }
    Some(collect_partition(partition_id, docs, sort_keys, limit))
}

/// The documents of the first `n` partitions, one partition after the other.
pub open spec fn pooled(partitions: Seq<PartitionResult>, n: int) -> Seq<ScoredDocument>
    decreases n,
{
    if n <= 0 {
        Seq::empty()
    } else {
        pooled(partitions, n - 1) + partitions[n - 1].docs()
    }
}

/// The matches of the first `n` partitions together.
pub open spec fn total_count(partitions: Seq<PartitionResult>, n: int) -> int
    decreases n,
{
    if n <= 0 {
        0
    } else {
        total_count(partitions, n - 1) + partitions[n - 1].count()
    }
}

/// The count of matches grows with the partitions.
pub proof fn lemma_total_count_grows(partitions: Seq<PartitionResult>, m: int, n: int)
    requires
        0 <= m <= n,
    ensures
        0 <= total_count(partitions, m) <= total_count(partitions, n),
    decreases n,
{
    if n > 0 {
        if m < n {
            lemma_total_count_grows(partitions, m, n - 1);
        } else {
            lemma_total_count_grows(partitions, m - 1, n - 1);
        }
    }
}

/// Merges the partitions' results: the matches are added up, and the
/// `limit` best of the documents that the partitions list are kept, best
/// first. With a limit of zero no document is listed.
pub fn merge(partitions: &Vec<PartitionResult>, limit: usize) -> (r: GlobalResult)
    requires
        total_count(partitions@, partitions@.len() as int) <= u64::MAX,
    ensures
        r.total_match_count == total_count(partitions@, partitions@.len() as int),
        r.ordered_docs@ == top_k(pooled(partitions@, partitions@.len() as int), limit as nat),
        is_top_k(
            r.ordered_docs@,
            pooled(partitions@, partitions@.len() as int).to_multiset(),
            limit as nat,
        ),
        r.ordered_docs@.len() <= limit,
        r.ordered_docs@.len() <= r.total_match_count,
        limit == 0 ==> r.ordered_docs@.len() == 0,
        forall|i: int, j: int|
            0 <= i < j < r.ordered_docs@.len() ==> r.ordered_docs@[i].sort_key
                >= r.ordered_docs@[j].sort_key,
{
    broadcast use group_to_multiset_ensures;

    let mut heap = BoundedHeap::new(limit);
    let mut total: u64 = 0;
    let ghost mut seen: Seq<ScoredDocument> = Seq::empty();
    assert(seen.to_multiset() =~= Multiset::<ScoredDocument>::empty());
    let mut i: usize = 0;
    while i < partitions.len()
        invariant
            i <= partitions@.len(),
            total_count(partitions@, partitions@.len() as int) <= u64::MAX,
            total == total_count(partitions@, i as int),
            seen == pooled(partitions@, i as int),
            seen.len() <= total,
            heap.limit() == limit,
            retains_best(heap.contents(), seen.to_multiset(), limit as nat),
        decreases partitions@.len() - i,
    {
        let partition = &partitions[i];
        proof {
            lemma_total_count_grows(partitions@, i + 1, partitions@.len() as int);
            use_type_invariant(partition);
            partition.lemma_lists_no_more_than_matched();
        }
        total = total + partition.match_count();
        if limit > 0 {
            let docs = partition.ordered_docs();
            let ghost before = seen;
            let mut j: usize = 0;
            while j < docs.len()
                invariant
                    j <= docs@.len(),
                    seen == before + docs@.take(j as int),
                    heap.limit() == limit,
                    retains_best(heap.contents(), seen.to_multiset(), limit as nat),
                decreases docs@.len() - j,
            {
                let doc = docs[j];
                proof {
                    use_type_invariant(&heap);
                    heap.lemma_has_worst();
                    lemma_offer_retains_best(heap.contents(), seen.to_multiset(), limit as nat, doc);
                    to_multiset_build(seen, doc);
                    assert(seen.push(doc) =~= before + docs@.take(j + 1));
                    seen = seen.push(doc);
                }
                heap.offer(doc);
                j += 1;
            }
            assert(docs@.take(docs@.len() as int) =~= docs@);
        } else {
            proof {
                let next = seen + partition.docs();
                assert(heap.contents().subset_of(next.to_multiset()));
                seen = next;
            }
        }
        i += 1;
    }
    let ordered_docs = heap.into_sorted_vec();
    proof {
        lemma_ranked_by_sort_key(ordered_docs@);
        lemma_top_k_determines(ordered_docs@, seen, limit as nat);
    }
    GlobalResult { ordered_docs, total_match_count: total }
}

/// Merges the partitions' results as [`merge`] does, unless their matches
/// are too many to count.
pub fn try_merge(partitions: &Vec<PartitionResult>, limit: usize) -> (r: Option<GlobalResult>)
    ensures
        match r {
            Some(merged) => {
                &&& merged.total_match_count == total_count(partitions@, partitions@.len() as int)
                &&& merged.ordered_docs@ == top_k(
                    pooled(partitions@, partitions@.len() as int),
                    limit as nat,
                )
                &&& merged.ordered_docs@.len() <= limit
                &&& merged.ordered_docs@.len() <= merged.total_match_count
                &&& forall|i: int, j: int|
                    0 <= i < j < merged.ordered_docs@.len() ==> merged.ordered_docs@[i].sort_key
                        >= merged.ordered_docs@[j].sort_key
            },
            None => total_count(partitions@, partitions@.len() as int) > u64::MAX,
        },
{
    let mut total: u64 = 0;
    let mut i: usize = 0;
    while i < partitions.len()
        invariant
            i <= partitions@.len(),
            total == total_count(partitions@, i as int),
        decreases partitions@.len() - i,
    {
        let count = partitions[i].match_count();
        if count > u64::MAX - total {
            proof {
                lemma_total_count_grows(partitions@, i + 1, partitions@.len() as int);
            }
            return None;
        }
        total = total + count;
        i += 1;
    }
    Some(merge(partitions, limit))
}

} // verus!
