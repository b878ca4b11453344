//! The result materializer: pairs each listed document's sort key with the
//! document's content, leaving out the documents whose content could not be
//! fetched.

use crate::scored::ScoredDocument;
use vstd::prelude::*;

verus! {

/// The pairs of the first `n` documents: the sort key and the content of
/// each document that has one, in order.
pub open spec fn materialized(docs: Seq<ScoredDocument>, contents: Seq<Option<String>>, n: int) -> Seq<
    (u64, Seq<char>),
>
    decreases n,
{
    if n <= 0 {
        Seq::empty()
    } else {
        let before = materialized(docs, contents, n - 1);
        match contents[n - 1] {
            Some(content) => before.push((docs[n - 1].sort_key, content@)),
            None => before,
        }
    }
}

/// The sort keys and texts of a list of pairs.
pub open spec fn pairs_view(pairs: Seq<(u64, String)>) -> Seq<(u64, Seq<char>)> {
    pairs.map_values(|pair: (u64, String)| (pair.0, pair.1@))
}

/// Pairs the sort key of each document with its content; `contents` holds,
/// for each document of `docs`, the content that was fetched, or `None`
/// where the fetch failed. Such a document is left out.
pub fn materialize(docs: &Vec<ScoredDocument>, contents: &Vec<Option<String>>) -> (r: Vec<(u64, String)>)
    requires
        contents@.len() == docs@.len(),
    ensures
        pairs_view(r@) == materialized(docs@, contents@, docs@.len() as int),
{
    let mut r: Vec<(u64, String)> = Vec::new();
    let mut i: usize = 0;
    assert(pairs_view(r@) =~= Seq::<(u64, Seq<char>)>::empty());
    while i < docs.len()
        invariant
            i <= docs@.len(),
            contents@.len() == docs@.len(),
            pairs_view(r@) == materialized(docs@, contents@, i as int),
        decreases docs@.len() - i,
    {
        let ghost before = r@;
        match &contents[i] {
            Some(content) => {
                let pair = (docs[i].sort_key, content.clone());
                r.push(pair);
                assert(pairs_view(r@) =~= pairs_view(before).push((pair.0, pair.1@)));
            },
            None => {},
        }
        i += 1;
    }
    r
}

} // verus!
