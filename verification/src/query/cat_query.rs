//! The range-constrained matcher: the documents of one partition that the
//! inner predicate tree matches and whose value of the bounded field lies
//! within the bound.

use crate::bitset::{bitset_docs, bitset_max_value, bitset_with_max_value};
use crate::docset::{
    is_strictly_increasing, lemma_rising_is_unique, strictly_increasing, SkipResult, VecDocSet,
};
use crate::predicate::CatQuery;
use crate::query::marking::{
    find_value, in_span, lemma_in_bound_is_in_span, mark_docs, member_set, range_bitset,
    select_held, select_marked, Held,
};
use crate::term::{big_endian, u64_term_bytes};
use vstd::prelude::*;

verus! {

/// The posting list of one value of the bounded field: the documents of the
/// partition that have the value, rising.
#[derive(Clone, Debug, PartialEq, Eq)]
pub struct TermPostings {
    pub value: u64,
    pub docs: Vec<u32>,
}

/// What the inner predicate tree matches in one partition.
#[derive(Clone, Debug, PartialEq, Eq)]
pub enum InnerMatches {
    /// The tree has no clause: it matches every document of the partition.
    All,
    /// The documents that the tree matches, rising.
    Docs(Vec<u32>),
}

/// Every document is below `max_doc`.
pub open spec fn below(docs: Seq<u32>, max_doc: u32) -> bool {
    forall|i: int| 0 <= i < docs.len() ==> docs[i] < max_doc
}

/// The posting lists are those of the term dictionary of a partition of
/// `max_doc` documents: they stand by rising value, and each list rises and
/// stays below `max_doc`.
pub open spec fn valid_postings(postings: Seq<TermPostings>, max_doc: u32) -> bool {
    &&& forall|i: int, j: int|
        0 <= i < j < postings.len() ==> (#[trigger] postings[i]).value < (#[trigger] postings[j]).value
    &&& forall|i: int|
        0 <= i < postings.len() ==> strictly_increasing((#[trigger] postings[i]).docs@) && below(
            postings[i].docs@,
            max_doc,
        )
}

/// Whether every document is below `max_doc`.
pub fn is_below(docs: &Vec<u32>, max_doc: u32) -> (r: bool)
    ensures
        r == below(docs@, max_doc),
{
    let mut i: usize = 0;
    while i < docs.len()
        invariant
            i <= docs@.len(),
            forall|k: int| 0 <= k < i ==> docs@[k] < max_doc,
        decreases docs@.len() - i,
    {
        if docs[i] >= max_doc {
            return false;
        }
        i += 1;
    }
    true
}

/// Whether the posting lists are those of the term dictionary of a
/// partition of `max_doc` documents.
pub fn postings_are_valid(postings: &Vec<TermPostings>, max_doc: u32) -> (r: bool)
    ensures
        r == valid_postings(postings@, max_doc),
{
    let mut i: usize = 0;
    while i < postings.len()
        invariant
            i <= postings@.len(),
            forall|a: int, b: int|
                0 <= a < b < i ==> (#[trigger] postings@[a]).value < (#[trigger] postings@[b]).value,
            forall|k: int|
                0 <= k < i ==> strictly_increasing((#[trigger] postings@[k]).docs@) && below(
                    postings@[k].docs@,
                    max_doc,
                ),
        decreases postings@.len() - i,
    {
        let entry = &postings[i];
        if i > 0 && postings[i - 1].value >= entry.value {
            return false;
        }
        if !is_strictly_increasing(&entry.docs) || !is_below(&entry.docs, max_doc) {
            return false;
        }
        assert forall|a: int, b: int| 0 <= a < b < i + 1 implies (#[trigger] postings@[a]).value < (
        #[trigger] postings@[b]).value by {
            if b == i && a < i - 1 {
                assert(postings@[a].value < postings@[i - 1].value);
            }
        }
        i += 1;
    }
    true
}

impl InnerMatches {
    /// The matches are those of a partition of `max_doc` documents: they
    /// rise and stay below `max_doc`.
    pub open spec fn valid(self, max_doc: u32) -> bool {
        match self {
            InnerMatches::All => true,
            InnerMatches::Docs(docs) => strictly_increasing(docs@) && below(docs@, max_doc),
        }
    }

    /// Whether the matches are those of a partition of `max_doc` documents.
    pub fn is_valid(&self, max_doc: u32) -> (r: bool)
        ensures
            r == self.valid(max_doc),
    {
        match self {
            InnerMatches::All => true,
            InnerMatches::Docs(docs) => is_strictly_increasing(docs) && is_below(docs, max_doc),
        }
    }

    /// Whether the inner tree matches `doc` in a partition of `max_doc`
    /// documents.
    pub open spec fn admits(self, max_doc: u32, doc: u32) -> bool {
        match self {
            InnerMatches::All => doc < max_doc,
            InnerMatches::Docs(docs) => docs@.contains(doc),
        }
    }
}

/// Whether one of the first `n` posting lists is that of a value within
/// `[left, right]` and holds `doc`.
pub open spec fn in_bound(postings: Seq<TermPostings>, n: int, left: u64, right: u64, doc: u32) -> bool {
    exists|i: int|
        0 <= i < n && i < postings.len() && left <= (#[trigger] postings[i]).value <= right
            && postings[i].docs@.contains(doc)
}

/// Whether `doc` is a match: the inner tree matches it, and its value of
/// the bounded field lies within `[left, right]`.
pub open spec fn is_match(
    postings: Seq<TermPostings>,
    inner: InnerMatches,
    max_doc: u32,
    left: u64,
    right: u64,
    doc: u32,
) -> bool {
    inner.admits(max_doc, doc) && in_bound(postings, postings.len() as int, left, right, doc)
}

/// `result` is the match set: the matches and nothing else, rising.
pub open spec fn is_match_set(
    result: Seq<u32>,
    postings: Seq<TermPostings>,
    inner: InnerMatches,
    max_doc: u32,
    left: u64,
    right: u64,
) -> bool {
    &&& strictly_increasing(result)
    &&& forall|d: u32| result.contains(d) <==> is_match(postings, inner, max_doc, left, right, d)
}

/// The match set is determined by the posting lists, the inner matches and
/// the bound: whatever strategy finds it, it is one list.
pub proof fn law_match_set_is_unique(
    first: Seq<u32>,
    second: Seq<u32>,
    postings: Seq<TermPostings>,
    inner: InnerMatches,
    max_doc: u32,
    left: u64,
    right: u64,
)
    requires
        is_match_set(first, postings, inner, max_doc, left, right),
        is_match_set(second, postings, inner, max_doc, left, right),
    ensures
        first == second,
{
    lemma_rising_is_unique(first, second);
}

/// A way to find the match set of a partition. All of them find the same
/// set.
#[derive(Clone, Copy, Debug, PartialEq, Eq, Structural)]
pub enum Strategy {
    /// Mark the documents within the bound in a bit set, then select the
    /// inner matches that are marked.
    RangeBitset,
    /// Mark the inner matches in a bit set, then mark the documents within
    /// the bound that it holds.
    InnerBitset,
    /// Keep the inner matches in an ordered set, then mark the documents
    /// within the bound that it holds.
    OrderedSet,
    /// Walk each posting list within the bound side by side with the inner
    /// matches.
    SideBySide,
    /// Look up the posting list of each value of the bound in turn.
    ValueLookup,
}

/// The strategy that suits the sizes of the two sides: the bit set is made
/// of the inner matches where there are fewer of them than values within
/// the bound, else of the documents within the bound.
pub open spec fn suited_strategy(values_in_bound: usize, inner: InnerMatches) -> Strategy {
    match inner {
        InnerMatches::All => Strategy::RangeBitset,
        InnerMatches::Docs(docs) => if docs@.len() < values_in_bound {
            Strategy::InnerBitset
        } else {
            Strategy::RangeBitset
        },
    }
}

/// The number of the first `n` posting lists whose value lies within
/// `[left, right]`.
pub open spec fn values_in_bound(postings: Seq<TermPostings>, n: int, left: u64, right: u64) -> int
    decreases n,
{
    if n <= 0 {
        0
    } else {
        values_in_bound(postings, n - 1, left, right) + if left <= postings[n - 1].value <= right {
            1int
        } else {
            0int
        }
    }
}

/// There are no more values within the bound than posting lists looked at.
pub proof fn lemma_values_in_bound_at_most(postings: Seq<TermPostings>, n: int, left: u64, right: u64)
    requires
        0 <= n,
    ensures
        0 <= values_in_bound(postings, n, left, right) <= n,
    decreases n,
{
    if n > 0 {
        lemma_values_in_bound_at_most(postings, n - 1, left, right);
    }
}

/// Why a document is a match.
#[derive(Clone, Copy, Debug, PartialEq, Eq)]
pub struct Explanation {
    pub description: &'static str,
}

/// The document is no match of the query.
#[derive(Clone, Copy, Debug, PartialEq, Eq, Structural)]
pub struct DoesNotMatch {
    pub doc: u32,
}

/// What a range-constrained query asks of each partition: the number of
/// clauses of its inner tree, the bounded field, the inclusive bound and the
/// number of results wanted.
#[derive(Clone, Copy, Debug, PartialEq, Eq, Structural)]
pub struct CatWeight {
    pub clauses: usize,
    pub field: u32,
    pub left: u64,
    pub right: u64,
    pub limit: usize,
}

impl CatQuery {
    /// What the inner tree matches in a partition, where the evaluation of
    /// its clauses gave `evaluated`: a tree without clauses matches every
    /// document.
    pub fn inner_matches(&self, evaluated: Vec<u32>) -> (r: InnerMatches)
        ensures
            r == if self.query@.len() == 0 {
                InnerMatches::All
            } else {
                InnerMatches::Docs(evaluated)
            },
    {
        if self.query.len() == 0 {
            InnerMatches::All
        } else {
            InnerMatches::Docs(evaluated)
        }
    }

    /// What the query asks of each partition.
    pub fn weight(&self) -> (r: CatWeight)
        ensures
            r.clauses == self.query@.len(),
            r.field == self.field,
            r.left == self.left,
            r.right == self.right,
            r.limit == self.limit,
    {
        CatWeight {
            clauses: self.query.len(),
            field: self.field,
            left: self.left,
            right: self.right,
            limit: self.limit,
        }
    }
}

impl CatWeight {
    /// What the inner tree matches in a partition, where the evaluation of
    /// its clauses gave `evaluated`: a tree without clauses matches every
    /// document.
    pub fn inner_matches(&self, evaluated: Vec<u32>) -> (r: InnerMatches)
        ensures
            r == if self.clauses == 0 {
                InnerMatches::All
            } else {
                InnerMatches::Docs(evaluated)
            },
    {
        if self.clauses == 0 {
            InnerMatches::All
        } else {
            InnerMatches::Docs(evaluated)
        }
    }

    /// The match set of one partition, by marking the documents within the
    /// bound in a bit set and selecting the inner matches that are marked.
    pub fn scorer2(&self, postings: &Vec<TermPostings>, inner: &InnerMatches, max_doc: u32) -> (r: Vec<u32>)
        requires
            valid_postings(postings@, max_doc),
            inner.valid(max_doc),
        ensures
            is_match_set(r@, postings@, *inner, max_doc, self.left, self.right),
    {
        let bits = range_bitset(postings, self.left, self.right, max_doc);
        select_marked(&bits, inner, max_doc)
    }

    /// The match set of one partition, by walking each posting list within
    /// the bound side by side with the inner matches.
    pub fn scorer1(&self, postings: &Vec<TermPostings>, inner: &InnerMatches, max_doc: u32) -> (r: Vec<u32>)
        requires
            valid_postings(postings@, max_doc),
            inner.valid(max_doc),
        ensures
            is_match_set(r@, postings@, *inner, max_doc, self.left, self.right),
    {
        match inner {
            InnerMatches::All => self.scorer2(postings, inner, max_doc),
            InnerMatches::Docs(docs) => {
                let held = Held::Listed(docs);
                select_held(postings, self.left, self.right, max_doc, docs, &held)
            },
        }
    }

    /// The match set of one partition, by keeping the inner matches in an
    /// ordered set and marking the documents within the bound that the set
    /// holds.
    pub fn scorer4(&self, postings: &Vec<TermPostings>, inner: &InnerMatches, max_doc: u32) -> (r: Vec<u32>)
        requires
            valid_postings(postings@, max_doc),
            inner.valid(max_doc),
        ensures
            is_match_set(r@, postings@, *inner, max_doc, self.left, self.right),
    {
        match inner {
            InnerMatches::All => self.scorer2(postings, inner, max_doc),
            InnerMatches::Docs(docs) => {
                let members = member_set(docs);
                let held = Held::Ordered(&members);
                select_held(postings, self.left, self.right, max_doc, docs, &held)
            },
        }
    }

    /// The match set of one partition, by marking the inner matches in a
    /// bit set and marking in another the documents within the bound that
    /// the first one holds.
    pub fn scorer5(&self, postings: &Vec<TermPostings>, inner: &InnerMatches, max_doc: u32) -> (r: Vec<u32>)
        requires
            valid_postings(postings@, max_doc),
            inner.valid(max_doc),
        ensures
            is_match_set(r@, postings@, *inner, max_doc, self.left, self.right),
    {
        match inner {
            InnerMatches::All => self.scorer2(postings, inner, max_doc),
            InnerMatches::Docs(docs) => {
                let mut marked = bitset_with_max_value(max_doc);
                mark_docs(&mut marked, docs);
                let held = Held::Marked(&marked);
                select_held(postings, self.left, self.right, max_doc, docs, &held)
            },
        }
    }

    /// The match set of one partition, by looking up the posting list of
    /// each value of the bound in turn, marking its documents in a bit set
    /// and selecting the inner matches that are marked.
    pub fn scorer3(&self, postings: &Vec<TermPostings>, inner: &InnerMatches, max_doc: u32) -> (r: Vec<u32>)
        requires
            valid_postings(postings@, max_doc),
            inner.valid(max_doc),
        ensures
            is_match_set(r@, postings@, *inner, max_doc, self.left, self.right),
    {
        let mut bits = bitset_with_max_value(max_doc);
        let mut value: u64 = self.left;
        let mut more = self.left <= self.right;
        assert forall|d: u32| !#[trigger] in_span(postings@, self.left as int, self.left - 1, d) by {}
        assert forall|d: u32|
            more || !#[trigger] in_span(postings@, self.left as int, self.right as int, d) by {}
        while more
            invariant
                valid_postings(postings@, max_doc),
                bitset_max_value(bits) == max_doc,
                more ==> self.left <= value <= self.right,
                forall|d: u32|
                    #![trigger bitset_docs(bits).contains(d)]
                    bitset_docs(bits).contains(d) <==> in_span(
                        postings@,
                        self.left as int,
                        if more {
                            value - 1
                        } else {
                            self.right as int
                        },
                        d,
                    ),
            decreases
                    if more {
                        self.right - value + 1
                    } else {
                        0
                    },
        {
            let ghost before = bitset_docs(bits);
            let found = find_value(postings, value);
            match found {
                Some(i) => {
                    mark_docs(&mut bits, &postings[i].docs);
                },
                None => {},
            }
            proof {
                assert forall|d: u32|
                    #![trigger bitset_docs(bits).contains(d)]
                    bitset_docs(bits).contains(d) <==> in_span(
                        postings@,
                        self.left as int,
                        value as int,
                        d,
                    ) by {
                    assert(before.contains(d) <==> in_span(postings@, self.left as int, value - 1, d));
                    if in_span(postings@, self.left as int, value - 1, d) {
                        let k = choose|k: int|
                            0 <= k < postings@.len() && self.left <= (#[trigger] postings@[k]).value
                                <= value - 1 && postings@[k].docs@.contains(d);
                        assert(self.left <= postings@[k].value <= value);
                    }
                    if in_span(postings@, self.left as int, value as int, d) {
                        let k = choose|k: int|
                            0 <= k < postings@.len() && self.left <= (#[trigger] postings@[k]).value
                                <= value && postings@[k].docs@.contains(d);
                        if postings@[k].value < value {
                            assert(self.left <= postings@[k].value <= value - 1);
                        } else {
                            match found {
                                Some(i) => {
                                    if k < i {
                                        assert(postings@[k].value < postings@[i as int].value);
                                    } else if i < k {
                                        assert(postings@[i as int].value < postings@[k].value);
                                    }
                                },
                                None => {},
                            }
                        }
                    }
                    match found {
                        Some(i) => {
                            assert(bitset_docs(bits).contains(d) <==> before.contains(d)
                                || postings@[i as int].docs@.contains(d));
                            if postings@[i as int].docs@.contains(d) {
                                assert(self.left <= postings@[i as int].value <= value);
                            }
                        },
                        None => {},
                    }
                }
            }
            if value == self.right {
                more = false;
            } else {
                value = value + 1;
            }
        }
        proof {
            assert forall|d: u32|
                bitset_docs(bits).contains(d) <==> in_bound(
                    postings@,
                    postings@.len() as int,
                    self.left,
                    self.right,
                    d,
                ) by {
                lemma_in_bound_is_in_span(postings@, self.left, self.right, d);
            }
        }
        select_marked(&bits, inner, max_doc)
    }

    /// The keys between which the term dictionary of the bounded field is
    /// scanned: those of the two ends of the bound.
    pub fn term_range(&self) -> (r: (Vec<u8>, Vec<u8>))
        ensures
            r.0@ == big_endian(self.left),
            r.1@ == big_endian(self.right),
    {
        (u64_term_bytes(self.field, self.left), u64_term_bytes(self.field, self.right))
    }

    /// Says that `doc` is a match, or that it is none.
    pub fn explain(
        &self,
        postings: &Vec<TermPostings>,
        inner: &InnerMatches,
        max_doc: u32,
        doc: u32,
    ) -> (r: Result<Explanation, DoesNotMatch>)
        requires
            valid_postings(postings@, max_doc),
            inner.valid(max_doc),
        ensures
            match r {
                Ok(_) => is_match(postings@, *inner, max_doc, self.left, self.right, doc),
                Err(e) => e.doc == doc && !is_match(
                    postings@,
                    *inner,
                    max_doc,
                    self.left,
                    self.right,
                    doc,
                ),
            },
    {
        let matches = self.scorer(postings, inner, max_doc);
        let ghost found = matches@;
        let mut set = match VecDocSet::new(matches) {
            Some(set) => set,
            None => {
                return Err(DoesNotMatch { doc });
            },
        };
        let outcome = set.skip_next(doc);
        proof {
            use_type_invariant(&set);
            set.lemma_position_in_range();
            let at = set.position();
            if found.contains(doc) {
                let i = choose|i: int| 0 <= i < found.len() && found[i] == doc;
                if at < found.len() {
                    if i < at {
                        assert(found[i] < doc);
                    } else if i > at {
                        assert(found[at] < found[i]);
                    }
                } else {
                    assert(found[i] < doc);
                }
            }
        }
        match outcome {
            SkipResult::Reached => Ok(Explanation { description: "CatQuery" }),
            _ => Err(DoesNotMatch { doc }),
        }
    }

    /// The number of values of the dictionary that lie within the bound.
    pub fn count_values(&self, postings: &Vec<TermPostings>) -> (r: usize)
        ensures
            r == values_in_bound(postings@, postings@.len() as int, self.left, self.right),
    {
        let mut count: usize = 0;
        let mut i: usize = 0;
        while i < postings.len()
            invariant
                i <= postings@.len(),
                count == values_in_bound(postings@, i as int, self.left, self.right),
                count <= i,
            decreases postings@.len() - i,
        {
            if self.left <= postings[i].value && postings[i].value <= self.right {
                count = count + 1;
            }
            i += 1;
        }
        count
    }

    /// The strategy that suits the partition: see [`suited_strategy`].
    pub fn choose_strategy(&self, postings: &Vec<TermPostings>, inner: &InnerMatches) -> (r: Strategy)
        ensures
            r == suited_strategy(
                values_in_bound(postings@, postings@.len() as int, self.left, self.right) as usize,
                *inner,
            ),
    {
        proof {
            lemma_values_in_bound_at_most(postings@, postings@.len() as int, self.left, self.right);
        }
        match inner {
            InnerMatches::All => Strategy::RangeBitset,
            InnerMatches::Docs(docs) => {
                if docs.len() < self.count_values(postings) {
                    Strategy::InnerBitset
                } else {
                    Strategy::RangeBitset
                }
            },
        }
    }

    /// The match set of one partition, found by `strategy`.
    pub fn scorer_with(
        &self,
        strategy: Strategy,
        postings: &Vec<TermPostings>,
        inner: &InnerMatches,
        max_doc: u32,
    ) -> (r: Vec<u32>)
        requires
            valid_postings(postings@, max_doc),
            inner.valid(max_doc),
        ensures
            is_match_set(r@, postings@, *inner, max_doc, self.left, self.right),
    {
        match strategy {
            Strategy::RangeBitset => self.scorer2(postings, inner, max_doc),
            Strategy::InnerBitset => self.scorer5(postings, inner, max_doc),
            Strategy::OrderedSet => self.scorer4(postings, inner, max_doc),
            Strategy::SideBySide => self.scorer1(postings, inner, max_doc),
            Strategy::ValueLookup => self.scorer3(postings, inner, max_doc),
        }
    }

    /// The match set of one partition, or `None` where the posting lists
    /// or the inner matches are not those of a partition of `max_doc`
    /// documents.
    pub fn try_scorer(&self, postings: &Vec<TermPostings>, inner: &InnerMatches, max_doc: u32) -> (r: Option<
        Vec<u32>,
    >)
        ensures
            match r {
                Some(matches) => valid_postings(postings@, max_doc) && inner.valid(max_doc)
                    && is_match_set(matches@, postings@, *inner, max_doc, self.left, self.right),
                None => !(valid_postings(postings@, max_doc) && inner.valid(max_doc)),
            },
    {
        if postings_are_valid(postings, max_doc) && inner.is_valid(max_doc) {
            Some(self.scorer(postings, inner, max_doc))
        } else {
            None
        }
    }

    /// The match set of one partition.
    pub fn scorer(&self, postings: &Vec<TermPostings>, inner: &InnerMatches, max_doc: u32) -> (r: Vec<u32>)
        requires
            valid_postings(postings@, max_doc),
            inner.valid(max_doc),
        ensures
            is_match_set(r@, postings@, *inner, max_doc, self.left, self.right),
    {
        self.scorer2(postings, inner, max_doc)
    }
}

} // verus!
