//! Term positions of a posting list: the stream of position gaps and the
//! computer that turns the gaps of one document into positions.

use vstd::prelude::*;

verus! {

/// How a skip over blocks of a posting list ended.
#[derive(Clone, Copy, Debug, PartialEq, Eq, Structural)]
pub enum BlockSegmentPostingsSkipResult {
    /// No block is left that could hold the target.
    Terminated,
    /// A block was reached; the number of term frequencies skipped on the way.
    Success(u32),
}

/// The position gaps of a posting list, one after the other, read from the
/// front.
pub struct PositionReader {
    gaps: Vec<u32>,
    cursor: usize,
}

impl PositionReader {
    /// Every gap of the stream, read or not.
    pub closed spec fn gaps(&self) -> Seq<u32> {
        self.gaps@
    }

    /// The number of gaps that were read or skipped.
    pub closed spec fn consumed(&self) -> int {
        self.cursor as int
    }

    /// The reader never stands behind the end of its stream. Every reader
    /// is so.
    #[verifier::type_invariant]
    pub closed spec fn wf(&self) -> bool {
        self.cursor <= self.gaps@.len()
    }

    /// A reader at the front of `gaps`.
    pub fn new(gaps: Vec<u32>) -> (r: PositionReader)
        ensures
            r.gaps() == gaps@,
            r.consumed() == 0,
    {
        PositionReader { gaps, cursor: 0 }
    }

    /// Passes over the next `skip_len` gaps.
    pub fn skip(&mut self, skip_len: usize)
        requires
            old(self).consumed() + skip_len <= old(self).gaps().len(),
        ensures
            final(self).gaps() == old(self).gaps(),
            final(self).consumed() == old(self).consumed() + skip_len,
    {
        let total: usize = self.gaps.len();
        assert(self.cursor + skip_len <= total);
        self.cursor = self.cursor + skip_len;
    }

    /// Reads the next gaps into `output`, as many as it holds.
    pub fn read(&mut self, output: &mut Vec<u32>)
        requires
            old(self).consumed() + old(output)@.len() <= old(self).gaps().len(),
        ensures
            final(self).gaps() == old(self).gaps(),
            final(self).consumed() == old(self).consumed() + old(output)@.len(),
            final(output)@ == old(self).gaps().subrange(
                old(self).consumed(),
                old(self).consumed() + old(output)@.len(),
            ),
    {
        let start: usize = self.cursor;
        let count: usize = output.len();
        let total: usize = self.gaps.len();
        let mut i: usize = 0;
        while i < count
            invariant
                i <= count,
                total == self.gaps@.len(),
                count == output@.len(),
                self.cursor == start,
                start + count <= self.gaps@.len(),
                self.gaps@ == old(self).gaps@,
                forall|j: int| 0 <= j < i ==> output@[j] == self.gaps@[start + j],
            decreases count - i,
        {
            output.set(i, self.gaps[start + i]);
            i += 1;
        }
        self.cursor = start + count;
        assert(output@ =~= self.gaps@.subrange(start as int, start + count));
    }
}

/// The sum of the first `n` of `gaps`.
pub open spec fn gap_sum(gaps: Seq<u32>, n: int) -> int
    decreases n,
{
    if n <= 0 {
        0
    } else {
        gap_sum(gaps, n - 1) + gaps[n - 1]
    }
}

/// A sum of gaps is never negative and grows with the number of gaps.
pub proof fn lemma_gap_sum_grows(gaps: Seq<u32>, m: int, n: int)
    requires
        0 <= m <= n,
    ensures
        0 <= gap_sum(gaps, m) <= gap_sum(gaps, n),
    decreases n,
{
    if n > 0 {
        if m < n {
            lemma_gap_sum_grows(gaps, m, n - 1);
        } else {
            lemma_gap_sum_grows(gaps, m - 1, n - 1);
        }
    }
}

/// Computes the positions of a term in one document from the gaps between
/// them. The gaps of the documents passed over are skipped only when
/// positions are next asked for.
pub struct PositionComputer {
    position_to_skip: usize,
    position_reader: PositionReader,
}

impl PositionComputer {
    /// The number of gaps to pass over before the next positions.
    pub closed spec fn pending(&self) -> int {
        self.position_to_skip as int
    }

    /// The stream of gaps.
    pub closed spec fn reader(&self) -> PositionReader {
        self.position_reader
    }

    /// The `n` gaps that follow the pending ones.
    pub open spec fn upcoming(&self, n: int) -> Seq<u32> {
        self.reader().gaps().subrange(
            self.reader().consumed() + self.pending(),
            self.reader().consumed() + self.pending() + n,
        )
    }

    pub fn new(position_reader: PositionReader) -> (r: PositionComputer)
        ensures
            r.pending() == 0,
            r.reader() == position_reader,
    {
        PositionComputer { position_to_skip: 0, position_reader }
    }

    /// Notes that `num_skip` more gaps are to be passed over.
    pub fn add_skip(&mut self, num_skip: usize)
        requires
            old(self).pending() + num_skip <= usize::MAX,
        ensures
            final(self).pending() == old(self).pending() + num_skip,
            final(self).reader() == old(self).reader(),
    {
        self.position_to_skip += num_skip;
    }

    /// Fills `output` with the next positions, as many as it holds: the
    /// pending gaps are passed over, and each position is `offset` plus the
    /// sum of the gaps read up to it.
    pub fn positions_with_offset(&mut self, offset: u32, output: &mut Vec<u32>)
        requires
            old(self).reader().consumed() + old(self).pending() + old(output)@.len() <= old(
                self,
            ).reader().gaps().len(),
            offset + gap_sum(old(self).upcoming(old(output)@.len() as int), old(output)@.len() as int)
                <= u32::MAX,
        ensures
            final(self).pending() == 0,
            final(self).reader().gaps() == old(self).reader().gaps(),
            final(self).reader().consumed() == old(self).reader().consumed() + old(self).pending()
                + old(output)@.len(),
            final(output)@.len() == old(output)@.len(),
            forall|i: int|
                0 <= i < old(output)@.len() ==> #[trigger] final(output)@[i] == offset + gap_sum(
                    old(self).upcoming(old(output)@.len() as int),
                    i + 1,
                ),
    {
        self.position_reader.skip(self.position_to_skip);
        self.position_to_skip = 0;
        self.position_reader.read(output);
        let ghost gaps = output@;
        let count: usize = output.len();
        let mut cum: u32 = offset;
        let mut i: usize = 0;
        while i < count
            invariant
                i <= count,
                count == output@.len(),
                gaps.len() == count,
                cum == offset + gap_sum(gaps, i as int),
                offset + gap_sum(gaps, count as int) <= u32::MAX,
                forall|j: int| 0 <= j < i ==> #[trigger] output@[j] == offset + gap_sum(gaps, j + 1),
                forall|j: int| i <= j < count ==> output@[j] == gaps[j],
            decreases count - i,
        {
            proof {
                lemma_gap_sum_grows(gaps, i + 1, count as int);
            }
            cum = cum + output[i];
            output.set(i, cum);
            i += 1;
        }
    }
}

} // verus!
