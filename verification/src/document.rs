//! Data model for documents, processing versions and their derived artifacts.
//!
//! Identifiers are carried as `u128` values, timestamps as seconds, dates as
//! plain year/month/day numbers, and embedding components and confidence
//! scores as their 32-bit transport encodings, so that every field is a plain
//! value the verifier can reason about.

use vstd::prelude::*;

verus! {

/// A calendar date carried as plain year / month / day numbers.
#[derive(Clone, Copy, PartialEq, Eq, Structural, Debug)]
pub struct Date {
    pub year: i32,
    pub month: u8,
    pub day: u8,
}

/// Lifecycle of a processing version: created as `Processing`, moved exactly
/// once to `Completed` or `Failed` by the external worker.
#[derive(Clone, Copy, PartialEq, Eq, Structural, Debug)]
pub enum VersionStatus {
    Processing,
    Completed,
    Failed,
}

/// A deduplicated document identity, keyed by the fingerprint of its content.
pub struct Document {
    pub id: u128,
    pub source_hash: u64,
    pub created_at: i64,
    pub updated_at: i64,
}

/// Mathematical value of a `Document`.
pub ghost struct DocumentView {
    pub id: u128,
    pub source_hash: u64,
    pub created_at: i64,
    pub updated_at: i64,
}

impl DeepView for Document {
    type V = DocumentView;

    open spec fn deep_view(&self) -> DocumentView {
        DocumentView {
            id: self.id,
            source_hash: self.source_hash,
            created_at: self.created_at,
            updated_at: self.updated_at,
        }
    }
}

impl Clone for Document {
    fn clone(&self) -> (res: Self)
        ensures
            res.deep_view() == self.deep_view(),
    {
        Document {
            id: self.id,
            source_hash: self.source_hash,
            created_at: self.created_at,
            updated_at: self.updated_at,
        }
    }
}

/// One immutable processing attempt of a document.
pub struct ProcessingVersion {
    pub id: u128,
    pub document_id: u128,
    pub version_number: i32,
    pub status: VersionStatus,
    pub summary_text: Option<String>,
    pub summary_type: Option<String>,
    pub summary_confidence: Option<u32>,
    pub created_at: i64,
}

/// Mathematical value of a `ProcessingVersion`.
pub ghost struct ProcessingVersionView {
    pub id: u128,
    pub document_id: u128,
    pub version_number: i32,
    pub status: VersionStatus,
    pub summary_text: Option<Seq<char>>,
    pub summary_type: Option<Seq<char>>,
    pub summary_confidence: Option<u32>,
    pub created_at: i64,
}

impl DeepView for ProcessingVersion {
    type V = ProcessingVersionView;

    open spec fn deep_view(&self) -> ProcessingVersionView {
        ProcessingVersionView {
            id: self.id,
            document_id: self.document_id,
            version_number: self.version_number,
            status: self.status,
            summary_text: self.summary_text.deep_view(),
            summary_type: self.summary_type.deep_view(),
            summary_confidence: self.summary_confidence,
            created_at: self.created_at,
        }
    }
}

impl Clone for ProcessingVersion {
    fn clone(&self) -> (res: Self)
        ensures
            res.deep_view() == self.deep_view(),
    {
        ProcessingVersion {
            id: self.id,
            document_id: self.document_id,
            version_number: self.version_number,
            status: self.status,
            summary_text: clone_opt_string(&self.summary_text),
            summary_type: clone_opt_string(&self.summary_type),
            summary_confidence: self.summary_confidence,
            created_at: self.created_at,
        }
    }
}

/// A discrete extracted task belonging to exactly one processing version.
pub struct ActionItem {
    pub id: u128,
    pub processing_version_id: u128,
    pub task_text: String,
    pub original_text: Option<String>,
    pub assignee_name: Option<String>,
    pub due_date: Option<Date>,
    pub priority: Option<String>,
    pub confidence: Option<u32>,
    pub created_at: i64,
}

/// Mathematical value of an `ActionItem`.
pub ghost struct ActionItemView {
    pub id: u128,
    pub processing_version_id: u128,
    pub task_text: Seq<char>,
    pub original_text: Option<Seq<char>>,
    pub assignee_name: Option<Seq<char>>,
    pub due_date: Option<Date>,
    pub priority: Option<Seq<char>>,
    pub confidence: Option<u32>,
    pub created_at: i64,
}

impl DeepView for ActionItem {
    type V = ActionItemView;

    open spec fn deep_view(&self) -> ActionItemView {
        ActionItemView {
            id: self.id,
            processing_version_id: self.processing_version_id,
            task_text: self.task_text.deep_view(),
            original_text: self.original_text.deep_view(),
            assignee_name: self.assignee_name.deep_view(),
            due_date: self.due_date,
            priority: self.priority.deep_view(),
            confidence: self.confidence,
            created_at: self.created_at,
        }
    }
}

impl Clone for ActionItem {
    fn clone(&self) -> (res: Self)
        ensures
            res.deep_view() == self.deep_view(),
    {
        ActionItem {
            id: self.id,
            processing_version_id: self.processing_version_id,
            task_text: self.task_text.clone(),
            original_text: clone_opt_string(&self.original_text),
            assignee_name: clone_opt_string(&self.assignee_name),
            due_date: self.due_date,
            priority: clone_opt_string(&self.priority),
            confidence: self.confidence,
            created_at: self.created_at,
        }
    }
}

/// An ordered segment of a version's text, optionally carrying an embedding.
/// Embedding components are carried as the 32-bit encodings handed over by
/// the embedding service.
pub struct Chunk {
    pub id: u128,
    pub processing_version_id: u128,
    pub text_content: Option<String>,
    pub speaker: Option<String>,
    pub position: i32,
    pub token_count: i32,
    pub created_at: i64,
    pub embedding: Option<Vec<u32>>,
}

/// Mathematical value of a `Chunk`.
pub ghost struct ChunkView {
    pub id: u128,
    pub processing_version_id: u128,
    pub text_content: Option<Seq<char>>,
    pub speaker: Option<Seq<char>>,
    pub position: i32,
    pub token_count: i32,
    pub created_at: i64,
    pub embedding: Option<Seq<u32>>,
}

impl DeepView for Chunk {
    type V = ChunkView;

    open spec fn deep_view(&self) -> ChunkView {
        ChunkView {
            id: self.id,
            processing_version_id: self.processing_version_id,
            text_content: self.text_content.deep_view(),
            speaker: self.speaker.deep_view(),
            position: self.position,
            token_count: self.token_count,
            created_at: self.created_at,
            embedding: self.embedding.deep_view(),
        }
    }
}

impl Clone for Chunk {
    fn clone(&self) -> (res: Self)
        ensures
            res.deep_view() == self.deep_view(),
    {
        Chunk {
            id: self.id,
            processing_version_id: self.processing_version_id,
            text_content: clone_opt_string(&self.text_content),
            speaker: clone_opt_string(&self.speaker),
            position: self.position,
            token_count: self.token_count,
            created_at: self.created_at,
            embedding: clone_opt_components(&self.embedding),
        }
    }
}

/// A seed classification example supplied with an ingestion request.
pub struct ClassificationExample {
    pub example_text: String,
    pub example_label: String,
}

/// Mathematical value of a `ClassificationExample`.
pub ghost struct ClassificationExampleView {
    pub example_text: Seq<char>,
    pub example_label: Seq<char>,
}

impl DeepView for ClassificationExample {
    type V = ClassificationExampleView;

    open spec fn deep_view(&self) -> ClassificationExampleView {
        ClassificationExampleView {
            example_text: self.example_text.deep_view(),
            example_label: self.example_label.deep_view(),
        }
    }
}

impl Clone for ClassificationExample {
    fn clone(&self) -> (res: Self)
        ensures
            res.deep_view() == self.deep_view(),
    {
        ClassificationExample {
            example_text: self.example_text.clone(),
            example_label: self.example_label.clone(),
        }
    }
}

/// The latest processing attempt of a document joined with the document's
/// own identity fields.
pub struct ProcessingVersionWithDocument {
    pub id: u128,
    pub source_hash: u64,
    pub status: VersionStatus,
    pub summary_text: Option<String>,
    pub summary_type: Option<String>,
    pub summary_confidence: Option<u32>,
    pub created_at: i64,
    pub updated_at: i64,
}

/// Mathematical value of a `ProcessingVersionWithDocument`.
pub ghost struct ProcessingVersionWithDocumentView {
    pub id: u128,
    pub source_hash: u64,
    pub status: VersionStatus,
    pub summary_text: Option<Seq<char>>,
    pub summary_type: Option<Seq<char>>,
    pub summary_confidence: Option<u32>,
    pub created_at: i64,
    pub updated_at: i64,
}

impl DeepView for ProcessingVersionWithDocument {
    type V = ProcessingVersionWithDocumentView;

    open spec fn deep_view(&self) -> ProcessingVersionWithDocumentView {
        ProcessingVersionWithDocumentView {
            id: self.id,
            source_hash: self.source_hash,
            status: self.status,
            summary_text: self.summary_text.deep_view(),
            summary_type: self.summary_type.deep_view(),
            summary_confidence: self.summary_confidence,
            created_at: self.created_at,
            updated_at: self.updated_at,
        }
    }
}

/// A document read result: the latest version joined with the document,
/// plus that version's action items.
pub struct DocumentQueryResult {
    pub document: ProcessingVersionWithDocument,
    pub action_items: Vec<ActionItem>,
}

/// Clones an optional string, preserving its mathematical value.
pub fn clone_opt_string(s: &Option<String>) -> (res: Option<String>)
    ensures
        res.deep_view() == s.deep_view(),
{
    match s {
        Some(t) => Some(t.clone()),
        None => None,
    }
}

/// Clones an optional embedding component vector, preserving its value.
pub fn clone_opt_components(e: &Option<Vec<u32>>) -> (res: Option<Vec<u32>>)
    ensures
        res.deep_view() == e.deep_view(),
{
    match e {
        Some(v) => {
            let mut out: Vec<u32> = Vec::new();
            let mut i: usize = 0;
            while i < v.len()
                invariant
                    i <= v.len(),
                    out@ == v@.subrange(0, i as int),
                decreases v.len() - i,
            {
                out.push(v[i]);
                proof {
                    assert(out@ =~= v@.subrange(0, i + 1 as int));
                }
                i = i + 1;
            }
            proof {
                assert(out@ =~= v@);
            }
            Some(out)
        },
        None => None,
    }
}

} // verus!
