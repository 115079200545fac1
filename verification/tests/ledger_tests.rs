use version_ledger::diff_service::{DiffStatus, PositionScore};
use version_ledger::document::{ActionItem, Chunk, ClassificationExample, VersionStatus};
use version_ledger::fingerprint::compute_fingerprint;
use version_ledger::ledger::{
    CompleteError, DiffError, DiffParams, IngestError, LedgerState, RawFile,
};

fn raw(name: &'static str, content: &'static [u8]) -> RawFile<'static> {
    RawFile { file_name: name, mime_type: "text/plain", content }
}

fn worker_item(version_id: u128, task: &str) -> ActionItem {
    ActionItem {
        id: version_id * 100,
        processing_version_id: version_id,
        task_text: task.to_string(),
        original_text: Some(format!("please {}", task)),
        assignee_name: None,
        due_date: None,
        priority: Some("high".to_string()),
        confidence: Some(0.9f32.to_bits()),
        created_at: 7,
    }
}

fn worker_chunk(version_id: u128, position: i32, text: &str) -> Chunk {
    Chunk {
        id: version_id * 1000 + position as u128,
        processing_version_id: version_id,
        text_content: Some(text.to_string()),
        speaker: Some("ana".to_string()),
        position,
        token_count: 2,
        created_at: 8,
        embedding: None,
    }
}

#[test]
fn fingerprint_is_deterministic_per_content() {
    let a = vec![1u8, 2, 3, 4];
    let b = vec![1u8, 2, 3, 4];
    let c = vec![1u8, 2, 3, 5];
    assert_eq!(compute_fingerprint(&a), compute_fingerprint(&b));
    assert_ne!(compute_fingerprint(&a), compute_fingerprint(&c));
}

#[test]
fn identical_ingestions_share_document_and_number_versions_one_two() {
    let mut ledger = LedgerState::new();
    let content = b"minutes of the meeting";
    let h = compute_fingerprint(&content.to_vec());
    let r1 = ledger.apply_ingest(11, 21, h, raw("m.txt", content), &Vec::new(), 1000);
    let (d1, v1) = r1.unwrap();
    let r2 = ledger.apply_ingest(12, 22, h, raw("m.txt", content), &Vec::new(), 1001);
    let (d2, v2) = r2.unwrap();

    assert_eq!(d1, d2);
    assert_ne!(v1, v2);
    let first = ledger.version_by_number(d1, 1).unwrap();
    let second = ledger.version_by_number(d1, 2).unwrap();
    assert_eq!(first.id, v1);
    assert_eq!(second.id, v2);
    assert!(ledger.version_by_number(d1, 3).is_none());
    assert_eq!(ledger.latest_version(d1).unwrap().id, v2);
    assert!(matches!(first.status, VersionStatus::Processing));
    assert_eq!(ledger.documents.len(), 1);
}

#[test]
fn distinct_content_gets_distinct_documents() {
    let mut ledger = LedgerState::new();
    let c1 = b"first document";
    let c2 = b"second document";
    let (d1, _) = ledger
        .apply_ingest(1, 2, compute_fingerprint(&c1.to_vec()), raw("a", c1), &Vec::new(), 1)
        .unwrap();
    let (d2, _) = ledger
        .apply_ingest(3, 4, compute_fingerprint(&c2.to_vec()), raw("b", c2), &Vec::new(), 2)
        .unwrap();
    assert_ne!(d1, d2);
    assert_eq!(ledger.latest_version(d1).unwrap().version_number, 1);
    assert_eq!(ledger.latest_version(d2).unwrap().version_number, 1);
}

#[test]
fn colliding_version_candidate_is_refused_atomically() {
    let mut ledger = LedgerState::new();
    let content = b"payload";
    let h = compute_fingerprint(&content.to_vec());
    ledger.apply_ingest(1, 2, h, raw("a", content), &Vec::new(), 1).unwrap();
    let before_docs = ledger.documents.len();
    let before_versions = ledger.versions.len();
    let before_raw = ledger.raw_files.len();
    let r = ledger.apply_ingest(3, 2, h, raw("a", content), &Vec::new(), 2);
    assert_eq!(r, Err(IngestError::IdConflict));
    assert_eq!(ledger.documents.len(), before_docs);
    assert_eq!(ledger.versions.len(), before_versions);
    assert_eq!(ledger.raw_files.len(), before_raw);
}

#[test]
fn ingest_requires_a_payload() {
    let mut ledger = LedgerState::new();
    let r = ledger.ingest(None, "a.txt", "text/plain", &Vec::new(), 5);
    assert_eq!(r, Err(IngestError::MissingPayload));
    assert_eq!(ledger.documents.len(), 0);
    assert_eq!(ledger.versions.len(), 0);
}

#[test]
fn ingest_commits_and_records_seed_examples() {
    let mut ledger = LedgerState::new();
    let examples = vec![ClassificationExample {
        example_text: "renew the contract".to_string(),
        example_label: "action".to_string(),
    }];
    let r = ledger.ingest(Some(b"notes".to_vec()), "n.txt", "text/plain", &examples, 42);
    let (document_id, version_id) = r.unwrap();
    assert_eq!(ledger.seed_examples.len(), 1);
    assert_eq!(ledger.seed_examples[0].processing_version_id, version_id);
    assert_eq!(ledger.seed_examples[0].example_label, "action");
    assert_eq!(ledger.raw_files.len(), 1);
    assert_eq!(ledger.raw_files[0].file_name, "n.txt");
    let latest = ledger.latest_version(document_id).unwrap();
    assert_eq!(latest.id, version_id);
    assert_eq!(latest.version_number, 1);
}

#[test]
fn completion_happens_exactly_once() {
    let mut ledger = LedgerState::new();
    let content = b"to be processed";
    let h = compute_fingerprint(&content.to_vec());
    let (_, v) = ledger.apply_ingest(1, 2, h, raw("a", content), &Vec::new(), 1).unwrap();

    assert_eq!(
        ledger.complete_version(999, VersionStatus::Completed, None, None, None, Vec::new(), Vec::new()),
        Err(CompleteError::VersionNotFound)
    );

    let r = ledger.complete_version(
        v,
        VersionStatus::Completed,
        Some("summary".to_string()),
        Some("meeting".to_string()),
        Some(0.8f32.to_bits()),
        vec![worker_item(v, "send minutes")],
        vec![worker_chunk(v, 0, "hello")],
    );
    assert!(r.is_ok());
    let stored = ledger.latest_version(ledger.documents[0].id).unwrap();
    assert!(matches!(stored.status, VersionStatus::Completed));
    assert_eq!(stored.summary_text.as_deref(), Some("summary"));

    let again = ledger.complete_version(
        v,
        VersionStatus::Failed,
        None,
        None,
        None,
        Vec::new(),
        Vec::new(),
    );
    assert_eq!(again, Err(CompleteError::AlreadyFinalized));
}

#[test]
fn query_facade_reports_results_and_absence() {
    let mut ledger = LedgerState::new();
    assert!(ledger.latest_version(1).is_none());
    assert!(ledger.find_results_by_version_number(1, 1).is_none());
    assert!(ledger.find_document_by_id(1).is_none());

    let content = b"doc";
    let h = compute_fingerprint(&content.to_vec());
    let (d, v) = ledger.apply_ingest(1, 2, h, raw("a", content), &Vec::new(), 1).unwrap();
    ledger
        .complete_version(
            v,
            VersionStatus::Completed,
            Some("sum".to_string()),
            None,
            None,
            vec![worker_item(v, "follow up")],
            vec![worker_chunk(v, 0, "alpha")],
        )
        .unwrap();

    let results = ledger.find_results_by_version_number(d, 1).unwrap();
    assert_eq!(results.action_items.len(), 1);
    assert_eq!(results.action_items[0].task_text, "follow up");
    assert_eq!(results.chunks.len(), 1);
    assert_eq!(results.chunks[0].text_content.as_deref(), Some("alpha"));

    let q = ledger.find_document_by_id(d).unwrap();
    assert_eq!(q.document.id, d);
    assert_eq!(q.document.source_hash, h);
    assert!(matches!(q.document.status, VersionStatus::Completed));
    assert_eq!(q.action_items.len(), 1);
}

#[test]
fn diff_names_the_missing_version_number() {
    let mut ledger = LedgerState::new();
    let content = b"doc";
    let h = compute_fingerprint(&content.to_vec());
    let (d, _) = ledger.apply_ingest(1, 2, h, raw("a", content), &Vec::new(), 1).unwrap();
    let scores: Vec<PositionScore> = Vec::new();

    let r = ledger.diff(d, &DiffParams { from_version: 9, to_version: 1 }, &scores);
    assert_eq!(r.err(), Some(DiffError::VersionNotFound(9)));
    let r = ledger.diff(d, &DiffParams { from_version: 1, to_version: 7 }, &scores);
    assert_eq!(r.err(), Some(DiffError::VersionNotFound(7)));
    let r = ledger.diff(d, &DiffParams { from_version: 5, to_version: 6 }, &scores);
    assert_eq!(r.err(), Some(DiffError::VersionNotFound(5)));
}

#[test]
fn diff_of_a_version_with_itself_is_all_unchanged() {
    let mut ledger = LedgerState::new();
    let content = b"doc";
    let h = compute_fingerprint(&content.to_vec());
    let (d, v) = ledger.apply_ingest(1, 2, h, raw("a", content), &Vec::new(), 1).unwrap();
    ledger
        .complete_version(
            v,
            VersionStatus::Completed,
            None,
            None,
            None,
            vec![worker_item(v, "one"), worker_item(v, "two")],
            vec![worker_chunk(v, 0, "a"), worker_chunk(v, 1, "b")],
        )
        .unwrap();

    let scores: Vec<PositionScore> = Vec::new();
    let diff = ledger
        .diff(d, &DiffParams { from_version: 1, to_version: 1 }, &scores)
        .unwrap();
    assert_eq!(diff.action_items_diff.len(), 2);
    for e in &diff.action_items_diff {
        assert_eq!(e.status, DiffStatus::Unchanged);
    }
    assert_eq!(diff.chunks_diff.len(), 2);
    for e in &diff.chunks_diff {
        assert_eq!(e.status, DiffStatus::Unchanged);
        assert_eq!(e.semantic_distance, Some(0u32));
    }
}

#[test]
fn diff_between_two_versions_reports_all_kinds() {
    let mut ledger = LedgerState::new();
    let content = b"doc";
    let h = compute_fingerprint(&content.to_vec());
    let (d, v1) = ledger.apply_ingest(1, 2, h, raw("a", content), &Vec::new(), 1).unwrap();
    let (_, v2) = ledger.apply_ingest(3, 4, h, raw("a", content), &Vec::new(), 2).unwrap();

    ledger
        .complete_version(
            v1,
            VersionStatus::Completed,
            None,
            None,
            None,
            vec![worker_item(v1, "kept"), worker_item(v1, "dropped")],
            vec![worker_chunk(v1, 0, "same"), worker_chunk(v1, 1, "old")],
        )
        .unwrap();
    ledger
        .complete_version(
            v2,
            VersionStatus::Completed,
            None,
            None,
            None,
            vec![worker_item(v2, "kept"), worker_item(v2, "fresh")],
            vec![worker_chunk(v2, 0, "same"), worker_chunk(v2, 1, "new"), worker_chunk(v2, 2, "tail")],
        )
        .unwrap();

    let scores: Vec<PositionScore> = Vec::new();
    let diff = ledger
        .diff(d, &DiffParams { from_version: 1, to_version: 2 }, &scores)
        .unwrap();

    let mut kinds: Vec<(DiffStatus, String)> = diff
        .action_items_diff
        .iter()
        .map(|e| (e.status, e.item.task_text.clone()))
        .collect();
    kinds.sort_by(|a, b| a.1.cmp(&b.1));
    assert_eq!(
        kinds,
        vec![
            (DiffStatus::Removed, "dropped".to_string()),
            (DiffStatus::Added, "fresh".to_string()),
            (DiffStatus::Unchanged, "kept".to_string()),
        ]
    );

    let chunk_statuses: Vec<(i32, DiffStatus)> = diff
        .chunks_diff
        .iter()
        .map(|e| (e.item.position, e.status))
        .collect();
    assert_eq!(
        chunk_statuses,
        vec![
            (0, DiffStatus::Unchanged),
            (1, DiffStatus::Modified),
            (2, DiffStatus::Added),
        ]
    );
}
