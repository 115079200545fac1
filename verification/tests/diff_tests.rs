use version_ledger::diff_service::{
    compare_action_items, compare_chunks_semantic, DiffEntry, DiffStatus, PositionScore,
};
use version_ledger::document::{ActionItem, Chunk, Date};

fn item(id: u128, task: &str, assignee: Option<&str>, created_at: i64) -> ActionItem {
    ActionItem {
        id,
        processing_version_id: id,
        task_text: task.to_string(),
        original_text: None,
        assignee_name: assignee.map(|s| s.to_string()),
        due_date: None,
        priority: None,
        confidence: None,
        created_at,
    }
}

fn chunk(id: u128, position: i32, text: &str, embedding: Option<Vec<f32>>) -> Chunk {
    Chunk {
        id,
        processing_version_id: 1,
        text_content: Some(text.to_string()),
        speaker: None,
        position,
        token_count: 3,
        created_at: 0,
        embedding: embedding.map(|e| e.iter().map(|x| x.to_bits()).collect()),
    }
}

fn statuses(entries: &[DiffEntry<ActionItem>]) -> Vec<(DiffStatus, String)> {
    entries.iter().map(|e| (e.status, e.item.task_text.clone())).collect()
}

fn euclidean(a: &[f32], b: &[f32]) -> f32 {
    a.iter().zip(b.iter()).map(|(x, y)| (x - y) * (x - y)).sum::<f32>().sqrt()
}

#[test]
fn action_items_partition_reconstructs_both_sides() {
    let from = vec![item(1, "write report", None, 10), item(2, "send invoice", None, 11)];
    let to = vec![item(7, "send invoice", None, 90), item(8, "book room", None, 91)];
    let diff = compare_action_items(from, to);

    let mut unchanged: Vec<String> = Vec::new();
    let mut removed: Vec<String> = Vec::new();
    let mut added: Vec<String> = Vec::new();
    for e in &diff {
        match e.status {
            DiffStatus::Unchanged => unchanged.push(e.item.task_text.clone()),
            DiffStatus::Removed => removed.push(e.item.task_text.clone()),
            DiffStatus::Added => added.push(e.item.task_text.clone()),
            DiffStatus::Modified => panic!("action-item diff never reports Modified"),
        }
    }
    let mut from_side = unchanged.clone();
    from_side.extend(removed.iter().cloned());
    from_side.sort();
    assert_eq!(from_side, vec!["send invoice".to_string(), "write report".to_string()]);
    let mut to_side = unchanged.clone();
    to_side.extend(added.iter().cloned());
    to_side.sort();
    assert_eq!(to_side, vec!["book room".to_string(), "send invoice".to_string()]);
    for a in &added {
        assert!(!removed.contains(a));
    }
}

#[test]
fn identical_collections_yield_only_unchanged() {
    let a = vec![
        item(1, "alpha", Some("ana"), 1),
        item(2, "beta", None, 2),
        item(3, "gamma", Some("gil"), 3),
    ];
    let b = vec![
        item(9, "alpha", Some("ana"), 9),
        item(10, "beta", None, 10),
        item(11, "gamma", Some("gil"), 11),
    ];
    let diff = compare_action_items(a, b);
    assert_eq!(diff.len(), 3);
    for e in &diff {
        assert_eq!(e.status, DiffStatus::Unchanged);
        assert!(e.modified_from.is_none());
        assert!(e.semantic_distance.is_none());
    }
}

#[test]
fn content_equality_ignores_ids_and_timestamps() {
    let due = Some(Date { year: 2024, month: 5, day: 9 });
    let mut a = item(1, "file taxes", Some("lee"), 100);
    a.due_date = due;
    a.confidence = Some(0.75f32.to_bits());
    let mut b = item(222, "file taxes", Some("lee"), 999_999);
    b.due_date = due;
    b.confidence = Some(0.25f32.to_bits());
    let diff = compare_action_items(vec![a], vec![b]);
    assert_eq!(diff.len(), 1);
    assert_eq!(diff[0].status, DiffStatus::Unchanged);
}

#[test]
fn mirrored_comparison_swaps_added_and_removed() {
    let a = vec![item(1, "one", None, 1), item(2, "two", None, 2)];
    let b = vec![item(3, "two", None, 3), item(4, "three", None, 4)];
    let ab = compare_action_items(a.clone(), b.clone());
    let ba = compare_action_items(b, a);

    let mut added_ab: Vec<String> = statuses(&ab)
        .into_iter()
        .filter(|(s, _)| *s == DiffStatus::Added)
        .map(|(_, t)| t)
        .collect();
    let mut removed_ba: Vec<String> = statuses(&ba)
        .into_iter()
        .filter(|(s, _)| *s == DiffStatus::Removed)
        .map(|(_, t)| t)
        .collect();
    added_ab.sort();
    removed_ba.sort();
    assert_eq!(added_ab, removed_ba);

    let mut removed_ab: Vec<String> = statuses(&ab)
        .into_iter()
        .filter(|(s, _)| *s == DiffStatus::Removed)
        .map(|(_, t)| t)
        .collect();
    let mut added_ba: Vec<String> = statuses(&ba)
        .into_iter()
        .filter(|(s, _)| *s == DiffStatus::Added)
        .map(|(_, t)| t)
        .collect();
    removed_ab.sort();
    added_ba.sort();
    assert_eq!(removed_ab, added_ba);

    let mut unchanged_ab: Vec<String> = statuses(&ab)
        .into_iter()
        .filter(|(s, _)| *s == DiffStatus::Unchanged)
        .map(|(_, t)| t)
        .collect();
    let mut unchanged_ba: Vec<String> = statuses(&ba)
        .into_iter()
        .filter(|(s, _)| *s == DiffStatus::Unchanged)
        .map(|(_, t)| t)
        .collect();
    unchanged_ab.sort();
    unchanged_ba.sort();
    assert_eq!(unchanged_ab, unchanged_ba);
}

#[test]
fn duplicate_content_reported_once_per_key() {
    let from = vec![item(1, "same", None, 1), item(2, "same", None, 2)];
    let to: Vec<ActionItem> = Vec::new();
    let diff = compare_action_items(from, to);
    assert_eq!(diff.len(), 1);
    assert_eq!(diff[0].status, DiffStatus::Removed);
}

#[test]
fn chunk_diff_reports_unchanged_then_added() {
    let from = vec![chunk(1, 0, "a", None)];
    let to = vec![chunk(2, 0, "a", None), chunk(3, 1, "b", None)];
    let scores: Vec<PositionScore> = Vec::new();
    let diff = compare_chunks_semantic(from, to, &scores);
    assert_eq!(diff.len(), 2);
    assert_eq!(diff[0].status, DiffStatus::Unchanged);
    assert_eq!(diff[0].item.position, 0);
    assert_eq!(diff[0].semantic_distance, Some(0u32));
    assert_eq!(f32::from_bits(diff[0].semantic_distance.unwrap()), 0.0);
    assert_eq!(diff[1].status, DiffStatus::Added);
    assert_eq!(diff[1].item.position, 1);
    assert_eq!(diff[1].item.text_content.as_deref(), Some("b"));
    assert!(diff[1].semantic_distance.is_none());
}

#[test]
fn chunk_diff_scores_modified_pair_with_both_embeddings() {
    let e1 = vec![1.0f32, 0.0, 0.0];
    let e2 = vec![0.0f32, 1.0, 0.0];
    let from = vec![chunk(1, 0, "a", Some(e1.clone()))];
    let to = vec![chunk(2, 0, "x", Some(e2.clone()))];
    let expected = euclidean(&e1, &e2);
    let scores = vec![PositionScore { position: 0, score: expected.to_bits() }];
    let diff = compare_chunks_semantic(from, to, &scores);
    assert_eq!(diff.len(), 1);
    assert_eq!(diff[0].status, DiffStatus::Modified);
    assert_eq!(diff[0].item.text_content.as_deref(), Some("x"));
    assert_eq!(
        diff[0].modified_from.as_ref().unwrap().text_content.as_deref(),
        Some("a")
    );
    assert_eq!(diff[0].semantic_distance, Some(expected.to_bits()));
    assert_eq!(f32::from_bits(diff[0].semantic_distance.unwrap()), expected);
}

#[test]
fn chunk_diff_omits_distance_when_one_side_lacks_embedding() {
    let from = vec![chunk(1, 0, "a", Some(vec![1.0f32]))];
    let to = vec![chunk(2, 0, "x", None)];
    let scores = vec![PositionScore { position: 0, score: 1.0f32.to_bits() }];
    let diff = compare_chunks_semantic(from, to, &scores);
    assert_eq!(diff.len(), 1);
    assert_eq!(diff[0].status, DiffStatus::Modified);
    assert!(diff[0].semantic_distance.is_none());
}

#[test]
fn chunk_diff_orders_positions_ascending_and_reports_removed() {
    let from = vec![chunk(1, 5, "e", None), chunk(2, 1, "b", None), chunk(3, 3, "d", None)];
    let to = vec![chunk(4, 1, "b", None), chunk(5, 3, "c", None)];
    let scores: Vec<PositionScore> = Vec::new();
    let diff = compare_chunks_semantic(from, to, &scores);
    let positions: Vec<i32> = diff.iter().map(|e| e.item.position).collect();
    assert_eq!(positions, vec![1, 3, 5]);
    assert_eq!(diff[0].status, DiffStatus::Unchanged);
    assert_eq!(diff[1].status, DiffStatus::Modified);
    assert_eq!(diff[2].status, DiffStatus::Removed);
    assert_eq!(diff[2].item.text_content.as_deref(), Some("e"));
}
