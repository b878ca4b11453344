use cat_query::docset::{intersection, is_strictly_increasing, SkipResult, VecDocSet};
use cat_query::predicate::{CatQuery, Occurrence, Predicate, PredicateNode, PredicateTree, TermValue};
use cat_query::query::cat_query::{
    is_below, postings_are_valid, CatWeight, DoesNotMatch, Explanation, InnerMatches, Strategy,
    TermPostings,
};

fn postings() -> Vec<TermPostings> {
    vec![
        TermPostings { value: 3, docs: vec![0, 4, 9] },
        TermPostings { value: 5, docs: vec![1, 5] },
        TermPostings { value: 6, docs: vec![2, 6, 8] },
        TermPostings { value: 9, docs: vec![3, 7] },
    ]
}

fn weight(left: u64, right: u64) -> CatWeight {
    CatWeight { clauses: 1, field: 1, left, right, limit: 10 }
}

fn all_strategies(w: &CatWeight, postings: &Vec<TermPostings>, inner: &InnerMatches, max_doc: u32) -> Vec<u32> {
    let result = w.scorer(postings, inner, max_doc);
    assert_eq!(w.scorer1(postings, inner, max_doc), result);
    assert_eq!(w.scorer2(postings, inner, max_doc), result);
    assert_eq!(w.scorer3(postings, inner, max_doc), result);
    assert_eq!(w.scorer4(postings, inner, max_doc), result);
    assert_eq!(w.scorer5(postings, inner, max_doc), result);
    for strategy in [
        Strategy::RangeBitset,
        Strategy::InnerBitset,
        Strategy::OrderedSet,
        Strategy::SideBySide,
        Strategy::ValueLookup,
    ] {
        assert_eq!(w.scorer_with(strategy, postings, inner, max_doc), result);
    }
    result
}

#[test]
fn matches_are_the_inner_matches_within_the_bound() {
    let inner = InnerMatches::Docs(vec![0, 1, 2, 3, 6, 8, 9]);
    assert_eq!(all_strategies(&weight(5, 6), &postings(), &inner, 10), vec![1, 2, 6, 8]);
    assert_eq!(all_strategies(&weight(3, 9), &postings(), &inner, 10), vec![0, 1, 2, 3, 6, 8, 9]);
    assert_eq!(all_strategies(&weight(4, 5), &postings(), &inner, 10), vec![1]);
}

#[test]
fn both_ends_of_the_bound_are_included() {
    let inner = InnerMatches::All;
    assert_eq!(all_strategies(&weight(3, 5), &postings(), &inner, 10), vec![0, 1, 4, 5, 9]);
    assert_eq!(all_strategies(&weight(6, 6), &postings(), &inner, 10), vec![2, 6, 8]);
    assert_eq!(all_strategies(&weight(9, 9), &postings(), &inner, 10), vec![3, 7]);
}

#[test]
fn inner_tree_without_clauses_matches_every_document() {
    let inner = InnerMatches::All;
    assert_eq!(
        all_strategies(&weight(0, 100), &postings(), &inner, 10),
        vec![0, 1, 2, 3, 4, 5, 6, 7, 8, 9]
    );
}

#[test]
fn bound_without_values_matches_nothing() {
    let inner = InnerMatches::All;
    assert_eq!(all_strategies(&weight(7, 8), &postings(), &inner, 10), Vec::<u32>::new());
    assert_eq!(all_strategies(&weight(1, 0), &postings(), &inner, 10), Vec::<u32>::new());
    assert_eq!(all_strategies(&weight(6, 5), &postings(), &inner, 10), Vec::<u32>::new());
}

#[test]
fn no_inner_match_gives_no_match() {
    let inner = InnerMatches::Docs(vec![]);
    assert_eq!(all_strategies(&weight(0, 100), &postings(), &inner, 10), Vec::<u32>::new());
}

#[test]
fn bound_up_to_the_greatest_value_ends() {
    let postings = vec![
        TermPostings { value: u64::MAX - 1, docs: vec![0] },
        TermPostings { value: u64::MAX, docs: vec![1] },
    ];
    let w = CatWeight { clauses: 0, field: 0, left: u64::MAX - 2, right: u64::MAX, limit: 1 };
    assert_eq!(all_strategies(&w, &postings, &InnerMatches::All, 2), vec![0, 1]);
}

#[test]
fn explain_tells_matches_from_the_rest() {
    let inner = InnerMatches::Docs(vec![0, 1, 2, 3, 6, 8, 9]);
    let w = weight(5, 6);
    assert_eq!(w.explain(&postings(), &inner, 10, 6), Ok(Explanation { description: "CatQuery" }));
    assert_eq!(w.explain(&postings(), &inner, 10, 1), Ok(Explanation { description: "CatQuery" }));
    assert_eq!(w.explain(&postings(), &inner, 10, 5), Err(DoesNotMatch { doc: 5 }));
    assert_eq!(w.explain(&postings(), &inner, 10, 0), Err(DoesNotMatch { doc: 0 }));
    assert_eq!(w.explain(&postings(), &inner, 10, 9), Err(DoesNotMatch { doc: 9 }));
}

#[test]
fn term_range_gives_the_keys_of_the_two_ends() {
    let (low, high) = weight(0x0102030405060708, 258).term_range();
    assert_eq!(low, vec![1, 2, 3, 4, 5, 6, 7, 8]);
    assert_eq!(high, vec![0, 0, 0, 0, 0, 0, 1, 2]);
    let (low, high) = weight(0, u64::MAX).term_range();
    assert_eq!(low, vec![0; 8]);
    assert_eq!(high, vec![255; 8]);
    assert!(weight(255, 256).term_range().0 < weight(255, 256).term_range().1);
}

#[test]
fn weight_carries_the_bound_of_its_query() {
    let query = CatQuery::new(vec![], 4, 10, 20, 30);
    assert_eq!(query.weight(), CatWeight { clauses: 0, field: 4, left: 10, right: 20, limit: 30 });
    assert_eq!(query.inner_matches(vec![1, 2]), InnerMatches::All);
    assert_eq!(query.weight().inner_matches(vec![1, 2]), InnerMatches::All);
    let clause = PredicateNode {
        occurrence: Occurrence::Must,
        tree: PredicateTree::Leaf(Predicate::Term { field: 0, value: TermValue::Unsigned(1) }),
    };
    let query = CatQuery::new(vec![clause], 4, 10, 20, 30);
    assert_eq!(query.weight(), CatWeight { clauses: 1, field: 4, left: 10, right: 20, limit: 30 });
    assert_eq!(query.inner_matches(vec![1, 2]), InnerMatches::Docs(vec![1, 2]));
    assert_eq!(query.weight().inner_matches(vec![]), InnerMatches::Docs(vec![]));
}

#[test]
fn validity_checks_say_what_the_matcher_asks() {
    assert!(postings_are_valid(&postings(), 10));
    assert!(!postings_are_valid(&postings(), 9));
    let unsorted_values =
        vec![TermPostings { value: 5, docs: vec![1] }, TermPostings { value: 3, docs: vec![0] }];
    assert!(!postings_are_valid(&unsorted_values, 10));
    let unsorted_docs = vec![TermPostings { value: 5, docs: vec![1, 1] }];
    assert!(!postings_are_valid(&unsorted_docs, 10));
    assert!(InnerMatches::All.is_valid(0));
    assert!(InnerMatches::Docs(vec![1, 2]).is_valid(3));
    assert!(!InnerMatches::Docs(vec![1, 2]).is_valid(2));
    assert!(!InnerMatches::Docs(vec![2, 1]).is_valid(3));
    assert!(is_below(&vec![], 0));
    assert!(is_strictly_increasing(&vec![]));
    assert!(is_strictly_increasing(&vec![7]));
    assert!(!is_strictly_increasing(&vec![7, 7]));
}

#[test]
fn doc_set_advances_through_its_documents() {
    let mut set = VecDocSet::new(vec![2, 5, 9]).unwrap();
    assert_eq!(set.size_hint(), 3);
    assert!(set.advance());
    assert_eq!(set.doc(), 2);
    assert!(set.advance());
    assert_eq!(set.doc(), 5);
    assert!(set.advance());
    assert_eq!(set.doc(), 9);
    assert!(!set.advance());
    assert!(!set.advance());
    assert!(VecDocSet::new(vec![2, 2]).is_none());
    assert!(VecDocSet::new(vec![3, 2]).is_none());
}

#[test]
fn skip_next_moves_on_by_one_document_at_least() {
    let mut set = VecDocSet::new(vec![2, 5, 9, 12]).unwrap();
    assert_eq!(set.skip_next(5), SkipResult::Reached);
    assert_eq!(set.doc(), 5);
    assert_eq!(set.skip_next(5), SkipResult::OverStep);
    assert_eq!(set.doc(), 9);
    assert_eq!(set.skip_next(10), SkipResult::OverStep);
    assert_eq!(set.doc(), 12);
    assert_eq!(set.skip_next(12), SkipResult::End);
    assert_eq!(set.skip_next(0), SkipResult::End);
}

#[test]
fn seek_stays_where_the_target_is_passed() {
    let mut set = VecDocSet::new(vec![2, 5, 9]).unwrap();
    assert_eq!(set.seek(1), SkipResult::OverStep);
    assert_eq!(set.doc(), 2);
    assert_eq!(set.seek(2), SkipResult::Reached);
    assert_eq!(set.doc(), 2);
    assert_eq!(set.seek(6), SkipResult::OverStep);
    assert_eq!(set.doc(), 9);
    assert_eq!(set.seek(10), SkipResult::End);
}

#[test]
fn intersection_finds_each_shared_document_in_turn() {
    let mut left = VecDocSet::new(vec![1, 3, 4, 8, 10, 15]).unwrap();
    let mut right = VecDocSet::new(vec![2, 3, 8, 9, 15, 20]).unwrap();
    let mut shared = vec![];
    while intersection(&mut left, &mut right) {
        assert_eq!(left.doc(), right.doc());
        shared.push(left.doc());
    }
    assert_eq!(shared, vec![3, 8, 15]);
}

#[test]
fn intersection_looks_at_the_current_document_of_the_right_set() {
    let mut left = VecDocSet::new(vec![5, 7]).unwrap();
    let mut right = VecDocSet::new(vec![7, 9]).unwrap();
    assert!(right.advance());
    assert!(intersection(&mut left, &mut right));
    assert_eq!(left.doc(), 7);
    assert_eq!(right.doc(), 7);
    assert!(!intersection(&mut left, &mut right));
}

#[test]
fn intersection_of_sets_that_share_nothing_fails() {
    let mut left = VecDocSet::new(vec![1, 3]).unwrap();
    let mut right = VecDocSet::new(vec![2, 4]).unwrap();
    assert!(!intersection(&mut left, &mut right));
    let mut left = VecDocSet::new(vec![]).unwrap();
    let mut right = VecDocSet::new(vec![2, 4]).unwrap();
    assert!(!intersection(&mut left, &mut right));
}

#[test]
fn strategy_follows_the_smaller_side() {
    assert_eq!(weight(3, 9).count_values(&postings()), 4);
    assert_eq!(weight(4, 8).count_values(&postings()), 2);
    assert_eq!(weight(7, 8).count_values(&postings()), 0);
    let few = InnerMatches::Docs(vec![1]);
    let many = InnerMatches::Docs(vec![1, 2, 3, 4]);
    assert_eq!(weight(3, 9).choose_strategy(&postings(), &few), Strategy::InnerBitset);
    assert_eq!(weight(3, 9).choose_strategy(&postings(), &many), Strategy::RangeBitset);
    assert_eq!(weight(4, 8).choose_strategy(&postings(), &few), Strategy::InnerBitset);
    assert_eq!(weight(5, 5).choose_strategy(&postings(), &few), Strategy::RangeBitset);
    assert_eq!(weight(3, 9).choose_strategy(&postings(), &InnerMatches::All), Strategy::RangeBitset);
}

#[test]
fn try_scorer_fails_where_the_input_is_not_that_of_the_partition() {
    let inner = InnerMatches::Docs(vec![0, 1, 2, 3, 6, 8, 9]);
    assert_eq!(weight(5, 6).try_scorer(&postings(), &inner, 10), Some(vec![1, 2, 6, 8]));
    assert_eq!(weight(5, 6).try_scorer(&postings(), &inner, 9), None);
    assert_eq!(weight(5, 6).try_scorer(&postings(), &InnerMatches::Docs(vec![3, 1]), 10), None);
}
