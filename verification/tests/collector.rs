use cat_query::bounded_heap::BoundedHeap;
use cat_query::collector::{
    collect_partition, merge, try_collect_partition, try_merge, GlobalResult, PartitionResult,
    SegmentCollector,
};
use cat_query::scored::ScoredDocument;

fn doc(sort_key: u64, partition_id: u32, local_doc_id: u32) -> ScoredDocument {
    ScoredDocument { sort_key, partition_id, local_doc_id }
}

#[test]
fn heap_keeps_the_best_and_drains_best_first() {
    let mut heap = BoundedHeap::new(3);
    for key in [5u64, 1, 9, 7, 3, 8, 2] {
        heap.offer(doc(key, 0, key as u32));
    }
    assert_eq!(heap.len(), 3);
    assert_eq!(heap.into_sorted_vec(), vec![doc(9, 0, 9), doc(8, 0, 8), doc(7, 0, 7)]);
}

#[test]
fn heap_with_room_keeps_everything() {
    let mut heap = BoundedHeap::new(10);
    for key in [5u64, 1, 9] {
        heap.offer(doc(key, 0, 0));
    }
    assert_eq!(heap.len(), 3);
    assert_eq!(heap.into_sorted_vec(), vec![doc(9, 0, 0), doc(5, 0, 0), doc(1, 0, 0)]);
}

#[test]
fn heap_of_limit_zero_keeps_nothing() {
    let mut heap = BoundedHeap::new(0);
    heap.offer(doc(5, 0, 0));
    heap.offer(doc(6, 0, 1));
    assert_eq!(heap.len(), 0);
    assert_eq!(heap.into_sorted_vec(), vec![]);
}

#[test]
fn equal_sort_keys_rank_by_partition_then_document() {
    let mut heap = BoundedHeap::new(3);
    heap.offer(doc(4, 1, 7));
    heap.offer(doc(4, 0, 9));
    heap.offer(doc(4, 1, 2));
    heap.offer(doc(4, 0, 3));
    heap.offer(doc(4, 2, 0));
    assert_eq!(heap.into_sorted_vec(), vec![doc(4, 0, 3), doc(4, 0, 9), doc(4, 1, 2)]);
}

#[test]
fn document_offered_twice_is_kept_twice() {
    let mut heap = BoundedHeap::new(3);
    heap.offer(doc(4, 0, 1));
    heap.offer(doc(4, 0, 1));
    heap.offer(doc(2, 0, 0));
    heap.offer(doc(3, 0, 0));
    assert_eq!(heap.into_sorted_vec(), vec![doc(4, 0, 1), doc(4, 0, 1), doc(3, 0, 0)]);
}

#[test]
fn partition_counts_every_match_and_lists_the_best() {
    let sort_keys: Vec<u64> = vec![10, 50, 20, 40, 30, 60];
    let result = collect_partition(3, &vec![0, 2, 3, 4], &sort_keys, 2);
    assert_eq!(result.match_count(), 4);
    assert_eq!(result.ordered_docs(), &vec![doc(40, 3, 3), doc(30, 3, 4)]);
}

#[test]
fn partition_with_fewer_matches_than_the_limit_lists_them_all() {
    let sort_keys: Vec<u64> = vec![10, 50, 20];
    let result = collect_partition(0, &vec![0, 1], &sort_keys, 5);
    assert_eq!(result.match_count(), 2);
    assert_eq!(result.ordered_docs(), &vec![doc(50, 0, 1), doc(10, 0, 0)]);
}

#[test]
fn partition_without_matches_is_empty() {
    let result = collect_partition(0, &vec![], &vec![1, 2, 3], 5);
    assert_eq!(result.match_count(), 0);
    assert_eq!(result.ordered_docs(), &Vec::<ScoredDocument>::new());
}

#[test]
fn segment_collector_collects_one_document_at_a_time() {
    let mut collector = SegmentCollector::new(7, 2);
    collector.collect(4, 100);
    collector.collect(9, 300);
    collector.collect(1, 200);
    let result = collector.harvest();
    assert_eq!(result.match_count(), 3);
    assert_eq!(result.ordered_docs(), &vec![doc(300, 7, 9), doc(200, 7, 1)]);
}

#[test]
fn merge_adds_the_counts_and_pools_the_documents() {
    let first = collect_partition(0, &vec![0, 1, 2, 3], &vec![1, 8, 3, 6], 3);
    let second = collect_partition(1, &vec![0, 1, 2], &vec![7, 2, 9], 3);
    let third = collect_partition(2, &vec![], &vec![], 3);
    let merged = merge(&vec![first, second, third], 3);
    assert_eq!(
        merged,
        GlobalResult { ordered_docs: vec![doc(9, 1, 2), doc(8, 0, 1), doc(7, 1, 0)], total_match_count: 7 }
    );
}

#[test]
fn merged_documents_fall_by_sort_key_and_stay_within_limit_and_count() {
    let parts = vec![
        collect_partition(0, &vec![0, 1, 2], &vec![5, 5, 4], 4),
        collect_partition(1, &vec![0, 1], &vec![5, 9], 4),
    ];
    let merged = merge(&parts, 4);
    assert!(merged.ordered_docs.len() <= 4);
    assert!(merged.ordered_docs.len() as u64 <= merged.total_match_count);
    assert!(merged.ordered_docs.windows(2).all(|pair| pair[0].sort_key >= pair[1].sort_key));
    assert_eq!(merged.ordered_docs, vec![doc(9, 1, 1), doc(5, 0, 0), doc(5, 0, 1), doc(5, 1, 0)]);
    assert_eq!(merged.total_match_count, 5);
}

#[test]
fn limit_zero_lists_nothing_whatever_matched() {
    let parts = vec![
        PartitionResult::new(vec![doc(5, 0, 0), doc(4, 0, 1)], 100).unwrap(),
        PartitionResult::new(vec![doc(7, 1, 0)], 50).unwrap(),
    ];
    let merged = merge(&parts, 0);
    assert_eq!(merged, GlobalResult { ordered_docs: vec![], total_match_count: 150 });
    let collected = collect_partition(0, &vec![0, 1], &vec![3, 4], 0);
    assert_eq!(collected.match_count(), 2);
    assert!(collected.ordered_docs().is_empty());
}

#[test]
fn merge_of_no_partition_is_empty() {
    assert_eq!(merge(&vec![], 5), GlobalResult { ordered_docs: vec![], total_match_count: 0 });
}

#[test]
fn splitting_a_partition_changes_neither_count_nor_documents() {
    let keys: Vec<u64> = vec![31, 4, 15, 92, 65, 35, 89, 79, 32, 38, 46, 26];
    let scored: Vec<ScoredDocument> =
        keys.iter().enumerate().map(|(i, key)| doc(*key, 0, i as u32)).collect();
    for limit in 0..14usize {
        let mut whole = BoundedHeap::new(limit);
        for d in scored.iter() {
            whole.offer(*d);
        }
        let whole = PartitionResult::new(whole.into_sorted_vec(), keys.len() as u64).unwrap();
        let unsplit = merge(&vec![whole], limit);
        for cut in 0..=scored.len() {
            let mut left = BoundedHeap::new(limit);
            let mut right = BoundedHeap::new(limit);
            for d in scored[..cut].iter() {
                left.offer(*d);
            }
            for d in scored[cut..].iter() {
                right.offer(*d);
            }
            let halves = vec![
                PartitionResult::new(left.into_sorted_vec(), cut as u64).unwrap(),
                PartitionResult::new(right.into_sorted_vec(), (scored.len() - cut) as u64).unwrap(),
            ];
            assert_eq!(merge(&halves, limit), unsplit);
        }
    }
}

#[test]
fn partition_result_lists_no_more_than_matched() {
    assert!(PartitionResult::new(vec![doc(1, 0, 0), doc(0, 0, 1)], 1).is_none());
    let result = PartitionResult::new(vec![doc(1, 0, 0)], 1).unwrap();
    assert_eq!(result.match_count(), 1);
    assert_eq!(result.ordered_docs(), &vec![doc(1, 0, 0)]);
}

#[test]
fn before_is_the_rank_order() {
    assert!(doc(5, 9, 9).before(&doc(4, 0, 0)));
    assert!(!doc(4, 0, 0).before(&doc(5, 9, 9)));
    assert!(doc(4, 0, 9).before(&doc(4, 1, 0)));
    assert!(doc(4, 1, 0).before(&doc(4, 1, 1)));
    assert!(!doc(4, 1, 1).before(&doc(4, 1, 1)));
}

#[test]
fn try_merge_fails_only_where_the_matches_are_too_many_to_count() {
    let parts = vec![
        PartitionResult::new(vec![doc(5, 0, 0)], u64::MAX - 1).unwrap(),
        PartitionResult::new(vec![doc(7, 1, 0)], 1).unwrap(),
    ];
    assert_eq!(
        try_merge(&parts, 1),
        Some(GlobalResult { ordered_docs: vec![doc(7, 1, 0)], total_match_count: u64::MAX })
    );
    let parts = vec![
        PartitionResult::new(vec![doc(5, 0, 0)], u64::MAX - 1).unwrap(),
        PartitionResult::new(vec![doc(7, 1, 0)], 2).unwrap(),
    ];
    assert_eq!(try_merge(&parts, 1), None);
}

#[test]
fn try_collect_partition_fails_where_a_match_has_no_sort_key() {
    assert!(try_collect_partition(0, &vec![0, 3], &vec![1, 2, 3], 2).is_none());
    let result = try_collect_partition(0, &vec![0, 2], &vec![1, 2, 3], 2).unwrap();
    assert_eq!(result.match_count(), 2);
    assert_eq!(result.ordered_docs(), &vec![doc(3, 0, 2), doc(1, 0, 0)]);
}
