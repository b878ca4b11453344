//! A heap of bounded size that keeps the best documents offered to it, the
//! worst of them at its root.

use crate::scored::{is_worst, lemma_worst_is_unique, offered, ranked, worst, ScoredDocument};
use vstd::multiset::*;
use vstd::prelude::*;
use vstd::seq_lib::*;

verus! {

/// Among the first `n` items, no item ranks before the item below it in the
/// tree (the item at `i` stands below the one at `(i - 1) / 2`).
pub open spec fn heap_ordered(items: Seq<ScoredDocument>, n: int) -> bool {
    forall|i: int| 0 < i < n ==> !items[(i - 1) / 2].ranks_before(#[trigger] items[i])
}

/// Changing one item changes the collection by that item.
pub proof fn lemma_update_to_multiset(s: Seq<ScoredDocument>, i: int, doc: ScoredDocument)
    requires
        0 <= i < s.len(),
    ensures
        s.update(i, doc).to_multiset() == s.to_multiset().remove(s[i]).insert(doc),
{
    broadcast use group_to_multiset_ensures;

    assert(s.update(i, doc) =~= s.remove(i).insert(i, doc));
    to_multiset_remove(s, i);
    to_multiset_insert(s.remove(i), i, doc);
}

/// Exchanging two items leaves the collection as it is.
pub proof fn lemma_swap_to_multiset(s: Seq<ScoredDocument>, i: int, j: int)
    requires
        0 <= i < s.len(),
        0 <= j < s.len(),
    ensures
        s.update(i, s[j]).update(j, s[i]).to_multiset() == s.to_multiset(),
{
    broadcast use group_to_multiset_ensures;

    let t = s.update(i, s[j]);
    lemma_update_to_multiset(s, i, s[j]);
    lemma_update_to_multiset(t, j, s[i]);
    assert(s.contains(s[i]));
    assert(s.contains(s[j]));
    assert(t.update(j, s[i]).to_multiset() =~= s.to_multiset());
}

/// In a heap nothing ranks behind the root.
pub proof fn lemma_root_is_worst(items: Seq<ScoredDocument>, i: int)
    requires
        heap_ordered(items, items.len() as int),
        0 <= i < items.len(),
    ensures
        items[i].ranks_at_least(items[0]),
    decreases i,
{
    if i > 0 {
        lemma_root_is_worst(items, (i - 1) / 2);
    }
}

/// The root of a heap is the worst document of its collection.
pub proof fn lemma_root_is_worst_of_all(items: Seq<ScoredDocument>)
    requires
        heap_ordered(items, items.len() as int),
        items.len() > 0,
    ensures
        is_worst(items.to_multiset(), items[0]),
        worst(items.to_multiset()) == items[0],
{
    broadcast use group_to_multiset_ensures;

    assert(items.contains(items[0]));
    assert forall|d: ScoredDocument| items.to_multiset().count(d) > 0 implies d.ranks_at_least(
        items[0],
    ) by {
        assert(items.contains(d));
        let i = choose|i: int| 0 <= i < items.len() && items[i] == d;
        lemma_root_is_worst(items, i);
    }
    lemma_worst_is_unique(items.to_multiset(), items[0]);
}

/// Exchanges the items at `i` and `j`.
fn exchange(items: &mut Vec<ScoredDocument>, i: usize, j: usize)
    requires
        i < old(items)@.len(),
        j < old(items)@.len(),
    ensures
        final(items)@ == old(items)@.update(i as int, old(items)@[j as int]).update(
            j as int,
            old(items)@[i as int],
        ),
        final(items)@.to_multiset() == old(items)@.to_multiset(),
{
    let a = items[i];
    let b = items[j];
    proof {
        lemma_swap_to_multiset(items@, i as int, j as int);
    }
    items.set(i, b);
    items.set(j, a);
}

/// Moves the item at `start` up until the item above it does not rank
/// before it.
fn sift_up(items: &mut Vec<ScoredDocument>, start: usize)
    requires
        start < old(items)@.len(),
        forall|i: int|
            0 < i < old(items)@.len() && i != start ==> !old(items)@[(i - 1) / 2].ranks_before(
                #[trigger] old(items)@[i],
            ),
        forall|i: int|
            0 < i < old(items)@.len() && (i - 1) / 2 == start && start > 0 ==> !old(items)@[(start
                - 1) / 2].ranks_before(#[trigger] old(items)@[i]),
    ensures
        final(items)@.len() == old(items)@.len(),
        final(items)@.to_multiset() == old(items)@.to_multiset(),
        heap_ordered(final(items)@, final(items)@.len() as int),
{
    let mut pos: usize = start;
    while pos > 0
        invariant
            pos < items@.len(),
            items@.len() == old(items)@.len(),
            items@.to_multiset() == old(items)@.to_multiset(),
            forall|i: int|
                0 < i < items@.len() && i != pos ==> !items@[(i - 1) / 2].ranks_before(
                    #[trigger] items@[i],
                ),
            forall|i: int|
                0 < i < items@.len() && (i - 1) / 2 == pos && pos > 0 ==> !items@[(pos - 1)
                    / 2].ranks_before(#[trigger] items@[i]),
        decreases pos,
    {
        let above: usize = (pos - 1) / 2;
        if items[above].before(&items[pos]) {
            exchange(items, above, pos);
            pos = above;
        } else {
            return ;
        }
    }
}

/// Moves the root down among the first `n` items until it ranks before
/// neither of the items below it.
fn sift_down(items: &mut Vec<ScoredDocument>, n: usize)
    requires
        n <= old(items)@.len(),
        forall|i: int|
            0 < i < n && (i - 1) / 2 != 0 ==> !old(items)@[(i - 1) / 2].ranks_before(
                #[trigger] old(items)@[i],
            ),
    ensures
        final(items)@.len() == old(items)@.len(),
        final(items)@.to_multiset() == old(items)@.to_multiset(),
        heap_ordered(final(items)@, n as int),
        forall|i: int| n <= i < old(items)@.len() ==> final(items)@[i] == old(items)@[i],
{
    let mut pos: usize = 0;
    while pos < n / 2
        invariant
            n <= items@.len(),
            items@.len() == old(items)@.len(),
            items@.to_multiset() == old(items)@.to_multiset(),
            forall|i: int| n <= i < old(items)@.len() ==> items@[i] == old(items)@[i],
            forall|i: int|
                0 < i < n && (i - 1) / 2 != pos ==> !items@[(i - 1) / 2].ranks_before(
                    #[trigger] items@[i],
                ),
            forall|i: int|
                0 < i < n && (i - 1) / 2 == pos && pos > 0 ==> !items@[(pos - 1) / 2].ranks_before(
                    #[trigger] items@[i],
                ),
        decreases n - pos,
    {
        let left: usize = 2 * pos + 1;
        let right: usize = left + 1;
        let below: usize = if right < n && items[left].before(&items[right]) {
            right
        } else {
            left
        };
        if items[pos].before(&items[below]) {
            exchange(items, pos, below);
            pos = below;
        } else {
            assert forall|i: int| 0 < i < n implies !items@[(i - 1) / 2].ranks_before(
                #[trigger] items@[i],
            ) by {
                if (i - 1) / 2 == pos {
                    assert(i == left || i == right);
                }
            }
            return ;
        }
    }
}

/// Keeps the `limit` best documents offered to it. The root of the heap is
/// the worst document kept, so that a better one can take its place.
pub struct BoundedHeap {
    limit: usize,
    items: Vec<ScoredDocument>,
}

impl BoundedHeap {
    /// The documents kept.
    pub closed spec fn contents(&self) -> Multiset<ScoredDocument> {
        self.items@.to_multiset()
    }

    /// The number of documents that the heap keeps at most.
    pub closed spec fn limit(&self) -> nat {
        self.limit as nat
    }

    /// The heap holds no more than its limit, and its items are in heap
    /// order. Every heap is so.
    #[verifier::type_invariant]
    pub closed spec fn wf(&self) -> bool {
        &&& self.items@.len() <= self.limit
        &&& heap_ordered(self.items@, self.items@.len() as int)
    }

    /// A heap that holds documents has a worst one.
    pub proof fn lemma_has_worst(&self)
        requires
            self.wf(),
        ensures
            self.contents().len() <= self.limit(),
            self.contents().len() > 0 ==> is_worst(self.contents(), worst(self.contents())),
    {
        broadcast use group_to_multiset_ensures;

        if self.items@.len() > 0 {
            lemma_root_is_worst_of_all(self.items@);
        }
    }

    /// An empty heap that keeps `limit` documents.
    pub fn new(limit: usize) -> (r: BoundedHeap)
        ensures
            r.limit() == limit,
            r.contents() == Multiset::<ScoredDocument>::empty(),
    {
        broadcast use group_to_multiset_ensures;

        let r = BoundedHeap { limit, items: Vec::new() };
        assert(r.items@.to_multiset() =~= Multiset::<ScoredDocument>::empty());
        r
    }

    /// The number of documents kept.
    pub fn len(&self) -> (r: usize)
        ensures
            r == self.contents().len(),
    {
        broadcast use group_to_multiset_ensures;

        self.items.len()
    }

    /// Offers `doc`: it is kept while there is room, and in a full heap it
    /// takes the place of the worst document if it ranks before it.
    pub fn offer(&mut self, doc: ScoredDocument)
        ensures
            final(self).limit() == old(self).limit(),
            final(self).contents() == offered(old(self).contents(), old(self).limit(), doc),
    {
        broadcast use group_to_multiset_ensures;

        proof {
            use_type_invariant(&*self);
        }
        let mut taken = BoundedHeap { limit: self.limit, items: Vec::new() };
        core::mem::swap(self, &mut taken);
        let limit = taken.limit;
        let mut items = taken.items;
        let count: usize = items.len();
        if count < limit {
            items.push(doc);
            sift_up(&mut items, count);
        } else if limit > 0 {
            proof {
                lemma_root_is_worst_of_all(items@);
            }
            if doc.before(&items[0]) {
                proof {
                    lemma_update_to_multiset(items@, 0, doc);
                }
                items.set(0, doc);
                sift_down(&mut items, count);
            }
        }
        *self = BoundedHeap { limit, items };
    }

    /// Takes the worst document out of a heap that holds one.
    fn pop_worst(&mut self) -> (r: ScoredDocument)
        requires
            old(self).contents().len() > 0,
        ensures
            final(self).limit() == old(self).limit(),
            is_worst(old(self).contents(), r),
            final(self).contents() == old(self).contents().remove(r),
            final(self).contents().len() == old(self).contents().len() - 1,
    {
        broadcast use group_to_multiset_ensures;

        proof {
            use_type_invariant(&*self);
            lemma_root_is_worst_of_all(self.items@);
        }
        let mut taken = BoundedHeap { limit: self.limit, items: Vec::new() };
        core::mem::swap(self, &mut taken);
        let limit = taken.limit;
        let mut items = taken.items;
        let count: usize = items.len();
        let root = items[0];
        exchange(&mut items, 0, count - 1);
        let ghost exchanged = items@;
        let last = items.pop();
        proof {
            assert(items@ =~= exchanged.remove(count - 1));
            to_multiset_remove(exchanged, count - 1);
        }
        sift_down(&mut items, count - 1);
        *self = BoundedHeap { limit, items };
        root
    }

    /// The documents kept, best first.
    pub fn into_sorted_vec(self) -> (r: Vec<ScoredDocument>)
        ensures
            ranked(r@),
            r@.to_multiset() == self.contents(),
    {
        broadcast use group_to_multiset_ensures;

        let ghost all = self.contents();
        let mut heap = self;
        let mut rising: Vec<ScoredDocument> = Vec::new();
        while heap.items.len() > 0
            invariant
                heap.contents().add(rising@.to_multiset()) == all,
                forall|i: int, j: int| 0 <= i < j < rising@.len() ==> rising@[j].ranks_at_least(rising@[i]),
                forall|d: ScoredDocument, i: int|
                    #![trigger heap.contents().count(d), rising@[i]]
                    heap.contents().count(d) > 0 && 0 <= i < rising@.len() ==> d.ranks_at_least(
                        rising@[i],
                    ),
            decreases heap.contents().len(),
        {
            let ghost kept = heap.contents();
            let ghost risen = rising@;
            proof {
                heap.items@.to_multiset_ensures();
            }
            let w = heap.pop_worst();
            rising.push(w);
            proof {
                to_multiset_build(risen, w);
                assert(kept.count(w) > 0);
                assert(heap.contents().add(rising@.to_multiset()) =~= kept.add(risen.to_multiset()));
                assert forall|d: ScoredDocument, i: int|
                    #![trigger heap.contents().count(d), rising@[i]]
                    heap.contents().count(d) > 0 && 0 <= i < rising@.len() implies d.ranks_at_least(
                    rising@[i],
                ) by {
                    assert(kept.count(d) > 0);
                    if i < risen.len() {
                        assert(rising@[i] == risen[i]);
                    }
                }
                assert forall|i: int, j: int| 0 <= i < j < rising@.len() implies rising@[j].ranks_at_least(
                    rising@[i],
                ) by {
                    assert(rising@[i] == risen[i]);
                    if j < risen.len() {
                        assert(rising@[j] == risen[j]);
                    }
                }
            }
        }
        proof {
            assert(heap.contents() =~= Multiset::<ScoredDocument>::empty());
            assert(rising@.to_multiset() =~= all);
        }
        let count: usize = rising.len();
        let mut r: Vec<ScoredDocument> = Vec::new();
        let mut i: usize = 0;
        while i < count
            invariant
                i <= count,
                count == rising@.len(),
                r@.len() == i,
                forall|j: int| 0 <= j < i ==> r@[j] == rising@[count - 1 - j],
            decreases count - i,
        {
            r.push(rising[count - 1 - i]);
            i += 1;
        }
        proof {
            assert(r@ =~= rising@.reverse());
            rising@.lemma_reverse_to_multiset();
        }
        r
    }
}

} // verus!
