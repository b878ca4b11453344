use cat_query::collector::{merge, GlobalResult};
use cat_query::materialize::materialize;
use cat_query::postings::{BlockSegmentPostingsSkipResult, PositionComputer, PositionReader};
use cat_query::predicate::{CatQuery, Occurrence, Predicate, PredicateNode, PredicateTree, TermValue};
use cat_query::query::cat_query::TermPostings;
use cat_query::query_parser::parse;
use cat_query::scored::ScoredDocument;
use cat_query::search::{
    is_empty_group, is_evaluation, match_set, search_partition, try_search_partition, Partition,
};
use tantivy::schema::{Schema, FAST, INDEXED, STRING};

fn schema() -> Schema {
    let mut builder = Schema::builder();
    builder.add_text_field("status", STRING);
    builder.add_u64_field("time", INDEXED | FAST);
    builder.build()
}

fn doc(sort_key: u64, partition_id: u32, local_doc_id: u32) -> ScoredDocument {
    ScoredDocument { sort_key, partition_id, local_doc_id }
}

/// A partition whose documents `first..first + count` hold their own
/// position in the whole collection as `time`.
fn partition(id: u32, first: u64, count: u32) -> Partition {
    Partition {
        id,
        max_doc: count,
        sort_keys: (0..count as u64).map(|d| first + d).collect(),
        postings: (0..count).map(|d| TermPostings { value: first + d as u64, docs: vec![d] }).collect(),
    }
}

/// The documents of the partition whose `status` is "0": those with an even
/// `time`.
fn status_zero(first: u64, count: u32) -> Vec<u32> {
    (0..count).filter(|d| (first + *d as u64) % 2 == 0).collect()
}

const QUERY: &str = r#"{"bool": {"filter": [
    {"term": {"status": {"value": "0"}}},
    {"range": {"time": {"from": 100, "to": 200, "include_lower": true, "include_upper": false}}}
]}}"#;

#[test]
fn thousand_documents_in_one_partition() {
    let tree = parse(QUERY.to_string(), schema(), 5);
    let part = partition(0, 0, 1000);
    assert!(part.is_valid());
    let evaluated = status_zero(0, 1000);
    assert!(is_evaluation(&evaluated, 1000));
    let matches = match_set(&tree, evaluated.clone(), &part);
    assert_eq!(matches, (100..200).filter(|d| d % 2 == 0).collect::<Vec<u32>>());
    let result = search_partition(&tree, evaluated, &part, 5);
    assert_eq!(result.match_count(), 50);
    let merged = merge(&vec![result], 5);
    assert_eq!(merged.total_match_count, 50);
    assert_eq!(
        merged.ordered_docs,
        vec![doc(198, 0, 198), doc(196, 0, 196), doc(194, 0, 194), doc(192, 0, 192), doc(190, 0, 190)]
    );
}

#[test]
fn thousand_documents_in_three_partitions() {
    let tree = parse(QUERY.to_string(), schema(), 5);
    let bounds = [(0u64, 150u32), (150, 45), (195, 805)];
    let mut results = vec![];
    for (id, (first, count)) in bounds.iter().enumerate() {
        let part = partition(id as u32, *first, *count);
        results.push(search_partition(&tree, status_zero(*first, *count), &part, 5));
    }
    assert_eq!(results[0].match_count(), 25);
    assert_eq!(results[1].match_count(), 23);
    assert_eq!(results[2].match_count(), 2);
    let merged = merge(&results, 5);
    assert_eq!(merged.total_match_count, 50);
    assert_eq!(
        merged.ordered_docs,
        vec![doc(198, 2, 3), doc(196, 2, 1), doc(194, 1, 44), doc(192, 1, 42), doc(190, 1, 40)]
    );
    let keys: Vec<u64> = merged.ordered_docs.iter().map(|d| d.sort_key).collect();
    assert_eq!(keys, vec![198, 196, 194, 192, 190]);
}

#[test]
fn query_that_matches_nothing_is_no_error() {
    let text = r#"{"bool": {"filter": [
        {"term": {"status": {"value": "0"}}},
        {"range": {"time": {"from": 5000, "to": 6000, "include_lower": true, "include_upper": true}}}
    ]}}"#;
    let tree = parse(text.to_string(), schema(), 5);
    let result = search_partition(&tree, status_zero(0, 1000), &partition(0, 0, 1000), 5);
    assert_eq!(merge(&vec![result], 5), GlobalResult { ordered_docs: vec![], total_match_count: 0 });
}

#[test]
fn empty_query_text_matches_no_document() {
    let tree = parse(String::new(), schema(), 5);
    assert_eq!(tree, PredicateTree::Group(vec![]));
    assert!(is_empty_group(&tree));
    assert!(!is_empty_group(&parse(QUERY.to_string(), schema(), 5)));
    let part = partition(0, 0, 100);
    assert_eq!(match_set(&tree, (0..100).collect(), &part), Vec::<u32>::new());
    let result = search_partition(&tree, (0..100).collect(), &part, 5);
    assert_eq!(result.match_count(), 0);
    assert!(result.ordered_docs().is_empty());
    assert_eq!(merge(&vec![result], 5), GlobalResult { ordered_docs: vec![], total_match_count: 0 });
}

#[test]
fn range_query_without_inner_clauses_matches_every_document_in_the_bound() {
    let text = r#"{"range": {"time": {"from": 10, "to": 12, "include_lower": true, "include_upper": true}}}"#;
    let tree = parse(text.to_string(), schema(), 2);
    let part = partition(0, 0, 100);
    assert_eq!(match_set(&tree, vec![], &part), vec![10, 11, 12]);
    let result = search_partition(&tree, vec![], &part, 9);
    assert_eq!(result.match_count(), 3);
    assert_eq!(result.ordered_docs(), &vec![doc(12, 0, 12), doc(11, 0, 11)]);
}

#[test]
fn plain_tree_matches_what_the_engine_evaluated() {
    let tree = PredicateTree::Leaf(Predicate::Term { field: 0, value: TermValue::Text("0".to_string()) });
    let part = partition(4, 10, 6);
    assert_eq!(match_set(&tree, vec![1, 3, 4], &part), vec![1, 3, 4]);
    let result = search_partition(&tree, vec![1, 3, 4], &part, 2);
    assert_eq!(result.match_count(), 3);
    assert_eq!(result.ordered_docs(), &vec![doc(14, 4, 4), doc(13, 4, 3)]);
    let group = PredicateTree::Group(vec![PredicateNode { occurrence: Occurrence::Must, tree }]);
    assert_eq!(match_set(&group, vec![1, 3, 4], &part), vec![1, 3, 4]);
}

#[test]
fn range_constrained_query_uses_its_own_limit() {
    let tree = PredicateTree::RangeConstrained(CatQuery::new(vec![], 1, 0, 100, 1));
    let result = search_partition(&tree, vec![], &partition(0, 0, 10), 5);
    assert_eq!(result.match_count(), 10);
    assert_eq!(result.ordered_docs(), &vec![doc(9, 0, 9)]);
}

#[test]
fn partition_is_valid_when_every_document_has_a_sort_key() {
    let mut part = partition(0, 0, 10);
    assert!(part.is_valid());
    part.sort_keys.pop();
    assert!(!part.is_valid());
    assert!(!is_evaluation(&vec![3, 2], 10));
    assert!(!is_evaluation(&vec![3, 10], 10));
}

#[test]
fn materialize_pairs_sort_keys_with_contents_and_skips_failed_fetches() {
    let docs = vec![doc(9, 0, 1), doc(7, 1, 0), doc(5, 0, 3)];
    let contents = vec![Some("{\"a\":1}".to_string()), None, Some("{\"a\":3}".to_string())];
    assert_eq!(
        materialize(&docs, &contents),
        vec![(9, "{\"a\":1}".to_string()), (5, "{\"a\":3}".to_string())]
    );
    assert_eq!(materialize(&vec![], &vec![]), vec![]);
    assert_eq!(materialize(&docs, &vec![None, None, None]), vec![]);
}

#[test]
fn positions_are_offset_plus_running_sum_of_gaps() {
    let reader = PositionReader::new(vec![1, 2, 3, 4, 5, 6, 7, 8]);
    let mut computer = PositionComputer::new(reader);
    let mut output = vec![0u32; 2];
    computer.positions_with_offset(10, &mut output);
    assert_eq!(output, vec![11, 13]);
    computer.add_skip(1);
    computer.add_skip(2);
    let mut output = vec![0u32; 3];
    computer.positions_with_offset(100, &mut output);
    assert_eq!(output, vec![106, 113, 121]);
    let mut output: Vec<u32> = vec![];
    computer.positions_with_offset(5, &mut output);
    assert_eq!(output, Vec::<u32>::new());
}

#[test]
fn position_reader_skips_and_reads_from_its_cursor() {
    let mut reader = PositionReader::new(vec![4, 5, 6, 7]);
    reader.skip(1);
    let mut output = vec![0u32; 2];
    reader.read(&mut output);
    assert_eq!(output, vec![5, 6]);
    let mut output = vec![0u32; 1];
    reader.read(&mut output);
    assert_eq!(output, vec![7]);
}

#[test]
fn skip_results_compare_by_variant_and_count() {
    assert_eq!(BlockSegmentPostingsSkipResult::Success(3), BlockSegmentPostingsSkipResult::Success(3));
    assert_ne!(BlockSegmentPostingsSkipResult::Success(3), BlockSegmentPostingsSkipResult::Success(4));
    assert_ne!(BlockSegmentPostingsSkipResult::Success(0), BlockSegmentPostingsSkipResult::Terminated);
}

#[test]
fn try_search_partition_fails_where_the_input_is_not_that_of_the_partition() {
    let tree = parse(QUERY.to_string(), schema(), 5);
    let part = partition(0, 0, 300);
    let found = try_search_partition(&tree, status_zero(0, 300), &part, 5).unwrap();
    assert_eq!(found.match_count(), 50);
    assert!(try_search_partition(&tree, vec![2, 1], &part, 5).is_none());
    assert!(try_search_partition(&tree, vec![300], &part, 5).is_none());
    let mut short = partition(0, 0, 300);
    short.sort_keys.pop();
    assert!(try_search_partition(&tree, vec![], &short, 5).is_none());
}
