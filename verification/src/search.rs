//! The retrieval pipeline of one partition: from a query and what the
//! storage engine read of the partition to the partition's result.

use crate::collector::{collect_partition, scored_matches, PartitionResult};
use crate::docset::{is_strictly_increasing, strictly_increasing};
use crate::predicate::PredicateTree;
use crate::query::cat_query::{
    below, is_below, is_match, postings_are_valid, valid_postings, InnerMatches, TermPostings,
};
use crate::query::marking::lemma_below_contains;
use crate::scored::top_k;
use vstd::prelude::*;

verus! {

/// What the storage engine read of one partition for one query.
#[derive(Clone, Debug, PartialEq, Eq)]
pub struct Partition {
    /// The partition's identifier.
    pub id: u32,
    /// The number of documents of the partition.
    pub max_doc: u32,
    /// The sort key of each document, by document identifier.
    pub sort_keys: Vec<u64>,
    /// The term dictionary of the field that the query bounds, with its
    /// posting lists.
    pub postings: Vec<TermPostings>,
}

impl Partition {
    /// Every document has a sort key, and the posting lists are those of
    /// the partition.
    pub open spec fn valid(self) -> bool {
        &&& self.sort_keys@.len() == self.max_doc
        &&& valid_postings(self.postings@, self.max_doc)
    }

    /// Whether every document has a sort key and the posting lists are
    /// those of the partition.
    pub fn is_valid(&self) -> (r: bool)
        ensures
            r == self.valid(),
    {
        self.sort_keys.len() == self.max_doc as usize && postings_are_valid(
            &self.postings,
            self.max_doc,
        )
    }
}

/// What the inner tree of a range-constrained query matches, where the
/// evaluation of its clauses gave `evaluated`.
pub open spec fn inner_of(clauses: nat, evaluated: Vec<u32>) -> InnerMatches {
    if clauses == 0 {
        InnerMatches::All
    } else {
        InnerMatches::Docs(evaluated)
    }
}

/// Whether `tree` matches `doc` in `partition`, where the storage engine's
/// evaluation of the tree's clauses gave `evaluated`. The group without
/// clauses matches no document. A range-constrained query matches the
/// documents within its bound that its inner tree matches, and an inner tree
/// without clauses matches every document.
pub open spec fn tree_matches(tree: PredicateTree, evaluated: Vec<u32>, partition: Partition, doc: u32) -> bool {
    match tree {
        PredicateTree::Leaf(_) => evaluated@.contains(doc),
        PredicateTree::Group(nodes) => nodes@.len() > 0 && evaluated@.contains(doc),
        PredicateTree::RangeConstrained(c) => is_match(
            partition.postings@,
            inner_of(c.query@.len(), evaluated),
            partition.max_doc,
            c.left,
            c.right,
            doc,
        ),
    }
}

/// Whether `tree` is the group without clauses, which matches no document
/// whatever an evaluation gives.
pub fn is_empty_group(tree: &PredicateTree) -> (r: bool)
    ensures
        r == match *tree {
            PredicateTree::Group(nodes) => nodes@.len() == 0,
            _ => false,
        },
        r ==> forall|evaluated: Vec<u32>, partition: Partition, doc: u32|
            !#[trigger] tree_matches(*tree, evaluated, partition, doc),
{
    match tree {
        PredicateTree::Group(nodes) => nodes.len() == 0,
        _ => false,
    }
}

/// The number of documents that the result of `tree` lists at most: the
/// limit of a range-constrained query, `limit` for any other tree.
pub open spec fn limit_of(tree: PredicateTree, limit: usize) -> usize {
    match tree {
        PredicateTree::RangeConstrained(c) => c.limit,
        _ => limit,
    }
}

/// The documents of `partition` that `tree` matches, rising.
pub fn match_set(tree: &PredicateTree, evaluated: Vec<u32>, partition: &Partition) -> (r: Vec<u32>)
    requires
        partition.valid(),
        strictly_increasing(evaluated@),
        below(evaluated@, partition.max_doc),
    ensures
        strictly_increasing(r@),
        below(r@, partition.max_doc),
        forall|d: u32| r@.contains(d) <==> tree_matches(*tree, evaluated, *partition, d),
{
    match tree {
        PredicateTree::Leaf(_) => evaluated,
        PredicateTree::Group(nodes) => {
            if nodes.len() == 0 {
                let r: Vec<u32> = Vec::new();
                assert forall|d: u32| !r@.contains(d) by {
                    if r@.contains(d) {
                        let i = choose|i: int| 0 <= i < r@.len() && r@[i] == d;
                    }
                }
                r
            } else {
                evaluated
            }
        },
        PredicateTree::RangeConstrained(c) => {
            let ghost given = evaluated;
            let inner = c.inner_matches(evaluated);
            let r = c.weight().scorer(&partition.postings, &inner, partition.max_doc);
            proof {
                assert forall|i: int| 0 <= i < r@.len() implies r@[i] < partition.max_doc by {
                    assert(r@.contains(r@[i]));
                    match inner {
                        InnerMatches::All => {},
                        InnerMatches::Docs(docs) => {
                            lemma_below_contains(docs@, partition.max_doc, r@[i]);
                        },
                    }
                }
            }
            r
        },
    }
}

/// Whether `evaluated` can be what the storage engine's evaluation gave in a
/// partition of `max_doc` documents: rising documents below `max_doc`.
pub fn is_evaluation(evaluated: &Vec<u32>, max_doc: u32) -> (r: bool)
    ensures
        r == (strictly_increasing(evaluated@) && below(evaluated@, max_doc)),
{
    is_strictly_increasing(evaluated) && is_below(evaluated, max_doc)
}

/// The result of one partition: the number of documents that `tree`
/// matches in it, and the best of them by sort key, best first, as many as
/// the tree's limit allows.
pub fn search_partition(tree: &PredicateTree, evaluated: Vec<u32>, partition: &Partition, limit: usize) -> (r:
    PartitionResult)
    requires
        partition.valid(),
        strictly_increasing(evaluated@),
        below(evaluated@, partition.max_doc),
    ensures
        exists|matches: Seq<u32>|
            {
                &&& strictly_increasing(matches)
                &&& forall|d: u32|
                    matches.contains(d) <==> tree_matches(*tree, evaluated, *partition, d)
                &&& r.count() == matches.len()
                &&& r.docs() == top_k(
                    #[trigger] scored_matches(partition.id, matches, partition.sort_keys@),
                    limit_of(*tree, limit) as nat,
                )
            },
{
    let wanted = match tree {
        PredicateTree::RangeConstrained(c) => c.limit,
        _ => limit,
    };
    let matches = match_set(tree, evaluated, partition);
    let r = collect_partition(partition.id, &matches, &partition.sort_keys, wanted);
    assert(r.docs() == top_k(
        scored_matches(partition.id, matches@, partition.sort_keys@),
        limit_of(*tree, limit) as nat,
    ));
    r
}

/// The result of one partition as [`search_partition`] gives it, or `None`
/// where `partition` is not valid or `evaluated` cannot be what an
/// evaluation gave in it.
pub fn try_search_partition(
    tree: &PredicateTree,
    evaluated: Vec<u32>,
    partition: &Partition,
    limit: usize,
) -> (r: Option<PartitionResult>)
    ensures
        r is Some <==> partition.valid() && strictly_increasing(evaluated@) && below(
            evaluated@,
            partition.max_doc,
        ),
        r is Some ==> exists|matches: Seq<u32>|
            {
                &&& strictly_increasing(matches)
                &&& forall|d: u32|
                    matches.contains(d) <==> tree_matches(*tree, evaluated, *partition, d)
                &&& r->Some_0.count() == matches.len()
                &&& r->Some_0.docs() == top_k(
                    #[trigger] scored_matches(partition.id, matches, partition.sort_keys@),
                    limit_of(*tree, limit) as nat,
                )
            },
{
    if partition.is_valid() && is_evaluation(&evaluated, partition.max_doc) {
        Some(search_partition(tree, evaluated, partition, limit))
    } else {
        None
    }
}

} // verus!
