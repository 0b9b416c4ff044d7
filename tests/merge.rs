use edge::merge::{latest_versions, merge_candidates, paginate, rank_by_score};
use edge::point::{score_key, ScoredPoint};

fn sp(id: u64, version: u64, score: f32) -> ScoredPoint {
    ScoredPoint { id, version, score_bits: score.to_bits() }
}

fn scores(points: &[ScoredPoint]) -> Vec<f32> {
    points.iter().map(|p| f32::from_bits(p.score_bits)).collect()
}

#[test]
fn dedup_keeps_highest_version() {
    let input = vec![sp(1, 10, 0.9), sp(1, 8, 0.95), sp(3, 1, 0.1)];
    let merged = merge_candidates(&input, 0, 10);
    assert_eq!(merged, vec![sp(1, 10, 0.9), sp(3, 1, 0.1)]);
}

#[test]
fn dedup_ignores_arrival_order() {
    let expected = vec![sp(1, 10, 0.9), sp(3, 1, 0.1)];
    let orders = vec![
        vec![sp(3, 1, 0.1), sp(1, 8, 0.95), sp(1, 10, 0.9)],
        vec![sp(1, 8, 0.95), sp(3, 1, 0.1), sp(1, 10, 0.9)],
        vec![sp(1, 10, 0.9), sp(3, 1, 0.1), sp(1, 8, 0.95)],
    ];
    for input in orders {
        assert_eq!(merge_candidates(&input, 0, 10), expected);
    }
}

#[test]
fn dedup_equal_versions_keep_higher_score() {
    let input = vec![sp(7, 4, 0.3), sp(7, 4, 0.6), sp(7, 2, 0.99)];
    assert_eq!(merge_candidates(&input, 0, 5), vec![sp(7, 4, 0.6)]);
}

#[test]
fn score_ordering_descending() {
    let input = vec![sp(1, 1, 0.2), sp(2, 1, 0.9), sp(3, 1, 0.5)];
    let merged = merge_candidates(&input, 0, 10);
    assert_eq!(scores(&merged), vec![0.9, 0.5, 0.2]);
    assert_eq!(merged.iter().map(|p| p.id).collect::<Vec<_>>(), vec![2, 3, 1]);
}

#[test]
fn equal_scores_ordered_by_id() {
    let input = vec![sp(9, 1, 0.5), sp(2, 1, 0.5), sp(5, 1, 0.7)];
    let merged = merge_candidates(&input, 0, 10);
    assert_eq!(merged.iter().map(|p| p.id).collect::<Vec<_>>(), vec![5, 2, 9]);
}

#[test]
fn negative_scores_rank_below_positive() {
    let input = vec![sp(1, 1, -0.5), sp(2, 1, 0.0), sp(3, 1, -0.0), sp(4, 1, -2.0), sp(5, 1, 1.5)];
    let merged = merge_candidates(&input, 0, 10);
    assert_eq!(merged.iter().map(|p| p.id).collect::<Vec<_>>(), vec![5, 2, 3, 1, 4]);
}

#[test]
fn pagination_window() {
    // ten candidates with scores 1.0, 0.9, ..., 0.1 in rank order
    let mut input = Vec::new();
    for i in 0..10u64 {
        input.push(sp(100 + i, 1, (10 - i) as f32 / 10.0));
    }
    input.reverse();
    let merged = merge_candidates(&input, 3, 4);
    assert_eq!(merged.len(), 4);
    assert_eq!(merged.iter().map(|p| p.id).collect::<Vec<_>>(), vec![103, 104, 105, 106]);
}

#[test]
fn pagination_partial_last_page() {
    let input = vec![sp(1, 1, 0.4), sp(2, 1, 0.3), sp(3, 1, 0.2), sp(4, 1, 0.1)];
    let merged = merge_candidates(&input, 2, 10);
    assert_eq!(merged.iter().map(|p| p.id).collect::<Vec<_>>(), vec![3, 4]);
}

#[test]
fn pagination_overrun_is_empty() {
    let input = vec![sp(1, 1, 0.4), sp(2, 1, 0.3), sp(3, 1, 0.2)];
    assert!(merge_candidates(&input, 3, 5).is_empty());
    assert!(merge_candidates(&input, 7, 5).is_empty());
    assert!(merge_candidates(&input, usize::MAX, usize::MAX).is_empty());
}

#[test]
fn pagination_offset_counts_deduplicated_entries() {
    let input = vec![sp(1, 2, 0.9), sp(1, 1, 0.9), sp(2, 1, 0.5)];
    assert_eq!(merge_candidates(&input, 1, 5), vec![sp(2, 1, 0.5)]);
    assert!(merge_candidates(&input, 2, 5).is_empty());
}

#[test]
fn zero_limit_is_empty() {
    let input = vec![sp(1, 1, 0.4)];
    assert!(merge_candidates(&input, 0, 0).is_empty());
}

#[test]
fn empty_candidates_merge_to_empty() {
    assert!(merge_candidates(&Vec::new(), 0, 10).is_empty());
}

#[test]
fn latest_versions_one_per_id() {
    let input = vec![sp(2, 1, 0.1), sp(1, 3, 0.2), sp(2, 5, 0.05), sp(1, 3, 0.1)];
    let mut latest = latest_versions(&input);
    latest.sort_by_key(|p| p.id);
    assert_eq!(latest, vec![sp(1, 3, 0.2), sp(2, 5, 0.05)]);
}

#[test]
fn rank_by_score_sorts() {
    let input = vec![sp(1, 1, 0.1), sp(2, 1, 0.3), sp(3, 1, 0.2)];
    assert_eq!(rank_by_score(&input), vec![sp(2, 1, 0.3), sp(3, 1, 0.2), sp(1, 1, 0.1)]);
}

#[test]
fn paginate_takes_window() {
    let input = vec![sp(1, 1, 0.5), sp(2, 1, 0.4), sp(3, 1, 0.3)];
    assert_eq!(paginate(&input, 1, 1), vec![sp(2, 1, 0.4)]);
    assert_eq!(paginate(&input, 0, usize::MAX), input);
}

#[test]
fn score_key_follows_total_order() {
    assert_eq!(score_key(0.0f32.to_bits()), 0);
    assert_eq!(score_key((-0.0f32).to_bits()), -1);
    assert_eq!(score_key(f32::from_bits(1).to_bits()), 1);
    assert!(score_key(1.0f32.to_bits()) > score_key(0.5f32.to_bits()));
    assert!(score_key((-1.0f32).to_bits()) < score_key((-0.5f32).to_bits()));
    assert_eq!(score_key(u32::MAX), 0x7fff_ffff - u32::MAX as i64);
}

#[test]
fn newer_and_rank_comparisons() {
    assert!(sp(1, 2, 0.1).is_newer_than(&sp(1, 1, 0.9)));
    assert!(sp(1, 2, 0.5).is_newer_than(&sp(1, 2, 0.4)));
    assert!(!sp(1, 2, 0.4).is_newer_than(&sp(1, 2, 0.4)));
    assert!(sp(4, 1, 0.5).ranks_before(&sp(1, 1, 0.4)));
    assert!(sp(1, 1, 0.5).ranks_before(&sp(4, 1, 0.5)));
    assert!(!sp(4, 1, 0.5).ranks_before(&sp(1, 1, 0.5)));
}
