//! Sets of documents walked in rising order, and the search for the next
//! document that two of them share.

use vstd::prelude::*;

verus! {

/// How a skip towards a target document ended.
#[derive(Clone, Copy, Debug, PartialEq, Eq, Structural)]
pub enum SkipResult {
    /// The set now stands on the target.
    Reached,
    /// The target is not in the set, which now stands on the first document
    /// after it.
    OverStep,
    /// No document at or after the target is left.
    End,
}

/// Every document is greater than the one before it.
pub open spec fn strictly_increasing(docs: Seq<u32>) -> bool {
    forall|i: int, j: int| 0 <= i < j < docs.len() ==> docs[i] < docs[j]
}

/// Whether every document is greater than the one before it.
pub fn is_strictly_increasing(docs: &Vec<u32>) -> (r: bool)
    ensures
        r == strictly_increasing(docs@),
{
    let mut i: usize = 1;
    while i < docs.len()
        invariant
            1 <= i,
            forall|a: int, b: int| 0 <= a < b < i && b < docs@.len() ==> docs@[a] < docs@[b],
        decreases docs@.len() - i,
    {
        if docs[i - 1] >= docs[i] {
            return false;
        }
        assert forall|a: int, b: int| 0 <= a < b < i + 1 && b < docs@.len() implies docs@[a]
            < docs@[b] by {
            if b == i && a < i - 1 {
                assert(docs@[a] < docs@[i - 1]);
            }
        }
        i += 1;
    }
    true
}

/// A set of documents has one rising list: two rising lists that hold the
/// same documents are one list.
pub proof fn lemma_rising_is_unique(s: Seq<u32>, t: Seq<u32>)
    requires
        strictly_increasing(s),
        strictly_increasing(t),
        forall|d: u32| s.contains(d) <==> t.contains(d),
    ensures
        s == t,
    decreases s.len(),
{
    if s.len() == 0 {
        if t.len() > 0 {
            assert(t.contains(t[0]));
            assert(s.contains(t[0]));
        }
        assert(s =~= t);
    } else {
        let a = s.last();
        assert(s.contains(a));
        assert(t.contains(a));
        let b = t.last();
        assert(t.contains(b));
        assert(s.contains(b));
        let i = choose|i: int| 0 <= i < t.len() && t[i] == a;
        let j = choose|j: int| 0 <= j < s.len() && s[j] == b;
        if i < t.len() - 1 {
            assert(t[i] < t[t.len() - 1]);
        }
        if j < s.len() - 1 {
            assert(s[j] < s[s.len() - 1]);
        }
        assert(a == b);
        let s0 = s.drop_last();
        let t0 = t.drop_last();
        assert forall|d: u32| s0.contains(d) <==> t0.contains(d) by {
            if s0.contains(d) {
                let k = choose|k: int| 0 <= k < s0.len() && s0[k] == d;
                assert(s[k] == d && s[k] < s[s.len() - 1]);
                assert(s.contains(d));
                let m = choose|m: int| 0 <= m < t.len() && t[m] == d;
                assert(t0[m] == d);
            }
            if t0.contains(d) {
                let k = choose|k: int| 0 <= k < t0.len() && t0[k] == d;
                assert(t[k] == d && t[k] < t[t.len() - 1]);
                assert(t.contains(d));
                let m = choose|m: int| 0 <= m < s.len() && s[m] == d;
                assert(s0[m] == d);
            }
        }
        assert(strictly_increasing(s0)) by {
            assert forall|x: int, y: int| 0 <= x < y < s0.len() implies s0[x] < s0[y] by {
                assert(s[x] < s[y]);
            }
        }
        assert(strictly_increasing(t0)) by {
            assert forall|x: int, y: int| 0 <= x < y < t0.len() implies t0[x] < t0[y] by {
                assert(t[x] < t[y]);
            }
        }
        lemma_rising_is_unique(s0, t0);
        assert(s =~= s0.push(a));
        assert(t =~= t0.push(b));
    }
}

/// A set of documents held as a rising list, with a cursor that walks it.
/// The cursor starts before the first document.
#[derive(Debug)]
pub struct VecDocSet {
    doc_ids: Vec<u32>,
    cursor: usize,
    started: bool,
}

impl VecDocSet {
    /// The documents of the set, rising.
    pub closed spec fn docs(&self) -> Seq<u32> {
        self.doc_ids@
    }

    /// Where the cursor stands: -1 before the first document, the index of
    /// the current document, or the number of documents once all are passed.
    pub closed spec fn position(&self) -> int {
        if self.started {
            self.cursor as int
        } else {
            -1
        }
    }

    /// The documents rise, and the cursor stands within them or at either
    /// end. Every set is so.
    #[verifier::type_invariant]
    pub closed spec fn wf(&self) -> bool {
        &&& strictly_increasing(self.doc_ids@)
        &&& self.cursor <= self.doc_ids@.len()
        &&& !self.started ==> self.cursor == 0
    }

    /// The cursor stands between -1 and the number of documents.
    pub proof fn lemma_position_in_range(&self)
        requires
            self.wf(),
        ensures
            -1 <= self.position() <= self.docs().len(),
            strictly_increasing(self.docs()),
    {
    }

    /// The set of `doc_ids`, its cursor before the first of them; `None`
    /// unless the documents rise strictly.
    pub fn new(doc_ids: Vec<u32>) -> (r: Option<VecDocSet>)
        ensures
            match r {
                Some(set) => set.docs() == doc_ids@ && set.position() == -1,
                None => !strictly_increasing(doc_ids@),
            },
    {
        if is_strictly_increasing(&doc_ids) {
            Some(VecDocSet { doc_ids, cursor: 0, started: false })
        } else {
            None
        }
    }

    /// Moves to the next document; `false` when there is none.
    pub fn advance(&mut self) -> (r: bool)
        ensures
            final(self).docs() == old(self).docs(),
            final(self).position() == if old(self).position() < old(self).docs().len() {
                old(self).position() + 1
            } else {
                old(self).position()
            },
            r == (final(self).position() < final(self).docs().len()),
    {
        proof {
            use_type_invariant(&*self);
        }
        if !self.started {
            self.started = true;
        } else if self.cursor < self.doc_ids.len() {
            self.cursor = self.cursor + 1;
        }
        self.cursor < self.doc_ids.len()
    }

    /// The current document.
    pub fn doc(&self) -> (r: u32)
        requires
            0 <= self.position() < self.docs().len(),
        ensures
            r == self.docs()[self.position()],
    {
        proof {
            use_type_invariant(self);
        }
        self.doc_ids[self.cursor]
    }

    /// The number of documents of the set.
    pub fn size_hint(&self) -> (r: usize)
        ensures
            r == self.docs().len(),
    {
        self.doc_ids.len()
    }

    /// Moves forward, by one document at least, to the first document that
    /// is not below `target`.
    pub fn skip_next(&mut self, target: u32) -> (r: SkipResult)
        ensures
            final(self).docs() == old(self).docs(),
            old(self).position() < final(self).position() || final(self).position() == old(
                self,
            ).docs().len(),
            final(self).position() <= old(self).docs().len(),
            forall|i: int|
                old(self).position() < i < final(self).position() ==> old(self).docs()[i] < target,
            match r {
                SkipResult::Reached => final(self).position() < old(self).docs().len() && old(
                    self,
                ).docs()[final(self).position()] == target,
                SkipResult::OverStep => final(self).position() < old(self).docs().len() && old(
                    self,
                ).docs()[final(self).position()] > target,
                SkipResult::End => final(self).position() == old(self).docs().len(),
            },
    {
        proof {
            use_type_invariant(&*self);
        }
        if !self.advance() {
            return SkipResult::End;
        }
        self.seek(target)
    }

    /// Moves forward, if need be, to the first document that is not below
    /// `target`. A cursor before the first document moves onto the set.
    pub fn seek(&mut self, target: u32) -> (r: SkipResult)
        ensures
            final(self).docs() == old(self).docs(),
            old(self).position() <= final(self).position() <= old(self).docs().len(),
            0 <= final(self).position(),
            forall|i: int|
                0 <= i && old(self).position() <= i < final(self).position() ==> old(self).docs()[i]
                    < target,
            match r {
                SkipResult::Reached => final(self).position() < old(self).docs().len() && old(
                    self,
                ).docs()[final(self).position()] == target,
                SkipResult::OverStep => final(self).position() < old(self).docs().len() && old(
                    self,
                ).docs()[final(self).position()] > target,
                SkipResult::End => final(self).position() == old(self).docs().len(),
            },
    {
        proof {
            use_type_invariant(&*self);
        }
        self.started = true;
        while self.cursor < self.doc_ids.len()
            invariant
                self.wf(),
                self.started,
                self.doc_ids@ == old(self).doc_ids@,
                old(self).position() <= self.cursor <= self.doc_ids@.len(),
                forall|i: int|
                    0 <= i && old(self).position() <= i < self.cursor ==> self.doc_ids@[i] < target,
            decreases self.doc_ids@.len() - self.cursor,
        {
            let doc = self.doc_ids[self.cursor];
            if doc == target {
                return SkipResult::Reached;
            }
            if doc > target {
                return SkipResult::OverStep;
            }
            self.cursor = self.cursor + 1;
        }
        SkipResult::End
    }
}

/// The documents at `a` of `left` and at `b` of `right` are one document,
/// and both stand where a search from `from_left` and `from_right` looks.
pub open spec fn shared_at(
    left: Seq<u32>,
    right: Seq<u32>,
    from_left: int,
    from_right: int,
    a: int,
    b: int,
) -> bool {
    &&& 0 <= a && from_left <= a < left.len()
    &&& 0 <= b && from_right <= b < right.len()
    &&& left[a] == right[b]
}

/// Moves `left` on to its next document that `right` holds as well, at or
/// after where `right` stands, and `right` onto the same document. Returns
/// `false` when there is no such document; one of the two is then at its
/// end.
pub fn intersection(left: &mut VecDocSet, right: &mut VecDocSet) -> (r: bool)
    ensures
        final(left).docs() == old(left).docs(),
        final(right).docs() == old(right).docs(),
        old(left).position() < final(left).position() || final(left).position() == old(
            left,
        ).docs().len(),
        old(right).position() <= final(right).position(),
        r ==> shared_at(
            old(left).docs(),
            old(right).docs(),
            old(left).position() + 1,
            old(right).position(),
            final(left).position(),
            final(right).position(),
        ),
        forall|a: int, b: int|
            #[trigger] shared_at(
                old(left).docs(),
                old(right).docs(),
                old(left).position() + 1,
                old(right).position(),
                a,
                b,
            ) ==> r && final(left).position() <= a && final(right).position() <= b,
        !r ==> final(left).position() == old(left).docs().len() || final(right).position() == old(
            right,
        ).docs().len(),
{
    proof {
        use_type_invariant(&*left);
        use_type_invariant(&*right);
        left.lemma_position_in_range();
        right.lemma_position_in_range();
    }
    if !left.advance() {
        return false;
    }
    let mut candidate: u32 = left.doc();
    loop
        invariant
            strictly_increasing(left.docs()),
            strictly_increasing(right.docs()),
            left.docs() == old(left).docs(),
            right.docs() == old(right).docs(),
            old(left).position() < left.position() < left.docs().len(),
            old(right).position() <= right.position() <= right.docs().len(),
            candidate == left.docs()[left.position()],
            forall|a: int, b: int|
                #[trigger] shared_at(
                    old(left).docs(),
                    old(right).docs(),
                    old(left).position() + 1,
                    old(right).position(),
                    a,
                    b,
                ) ==> left.position() <= a && right.position() <= b,
        decreases left.docs().len() - left.position() + right.docs().len() - right.position(),
    {
        let ghost left_before = left.position();
        let ghost right_before = right.position();
        match right.seek(candidate) {
            SkipResult::Reached => {
                return true;
            },
            SkipResult::OverStep => {
                candidate = right.doc();
            },
            SkipResult::End => {
                return false;
            },
        }
        match left.seek(candidate) {
            SkipResult::Reached => {
                return true;
            },
            SkipResult::OverStep => {
                candidate = left.doc();
            },
            SkipResult::End => {
                return false;
            },
        }
    }
}

} // verus!
