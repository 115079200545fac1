//! The version ledger: an explicit model of the relational store's rows,
//! with the ingestion transaction, the read-side queries and the diff
//! orchestration over it.
//!
//! The ledger owns the invariants the store is trusted with in production:
//! document identities are unique per content fingerprint, version numbers
//! are contiguous and strictly increasing from one per document, and child
//! artifacts always reference an existing version.

use vstd::prelude::*;
use vstd::pervasive::VecAdditionalExecFns;
use vstd::slice::slice_to_vec;
use crate::document::{
    clone_opt_string, ActionItem, ActionItemView, Chunk, ChunkView, ClassificationExample,
    ClassificationExampleView, Document, DocumentQueryResult, DocumentView, ProcessingVersion,
    ProcessingVersionView, ProcessingVersionWithDocument, ProcessingVersionWithDocumentView,
    VersionStatus,
};
use crate::fingerprint::{compute_fingerprint, fingerprint_of};

verus! {

/// A raw uploaded artifact, as handed to the ingestion transaction.
#[derive(Clone, Copy)]
pub struct RawFile<'a> {
    pub file_name: &'a str,
    pub mime_type: &'a str,
    pub content: &'a [u8],
}

/// The stored copy of a raw uploaded artifact, tied to its version.
pub struct RawFileRecord {
    pub processing_version_id: u128,
    pub file_name: String,
    pub mime_type: String,
    pub content: Vec<u8>,
}

/// Mathematical value of a `RawFileRecord`.
pub ghost struct RawFileRecordView {
    pub processing_version_id: u128,
    pub file_name: Seq<char>,
    pub mime_type: Seq<char>,
    pub content: Seq<u8>,
}

impl DeepView for RawFileRecord {
    type V = RawFileRecordView;

    open spec fn deep_view(&self) -> RawFileRecordView {
        RawFileRecordView {
            processing_version_id: self.processing_version_id,
            file_name: self.file_name.deep_view(),
            mime_type: self.mime_type.deep_view(),
            content: self.content.deep_view(),
        }
    }
}

/// A stored seed classification example, tied to its version.
pub struct SeedExampleRecord {
    pub processing_version_id: u128,
    pub example_text: String,
    pub example_label: String,
}

/// Mathematical value of a `SeedExampleRecord`.
pub ghost struct SeedExampleRecordView {
    pub processing_version_id: u128,
    pub example_text: Seq<char>,
    pub example_label: Seq<char>,
}

impl DeepView for SeedExampleRecord {
    type V = SeedExampleRecordView;

    open spec fn deep_view(&self) -> SeedExampleRecordView {
        SeedExampleRecordView {
            processing_version_id: self.processing_version_id,
            example_text: self.example_text.deep_view(),
            example_label: self.example_label.deep_view(),
        }
    }
}

/// The version pair named by a diff request.
pub struct DiffParams {
    pub from_version: i32,
    pub to_version: i32,
}

/// A text-search request, resolved by the embedding collaborator outside
/// this ledger.
pub struct SearchRequest {
    pub query: String,
}

/// Why an ingestion request was refused.
#[derive(Clone, Copy, PartialEq, Eq, Structural, Debug)]
pub enum IngestError {
    /// No payload was supplied; refused before the ledger is touched.
    MissingPayload,
    /// A candidate identifier collided with a committed row, as the store's
    /// uniqueness constraints would report; the transaction left no rows.
    IdConflict,
}

/// Whether some document carries identifier `id`.
pub open spec fn has_doc_id(docs: Seq<DocumentView>, id: u128) -> bool {
    exists|i: int| 0 <= i < docs.len() && docs[i].id == id
}

/// Whether some document carries content fingerprint `h`.
pub open spec fn has_fingerprint(docs: Seq<DocumentView>, h: u64) -> bool {
    exists|i: int| 0 <= i < docs.len() && docs[i].source_hash == h
}

/// The index of the document carrying fingerprint `h` (unique in a
/// well-formed ledger).
pub open spec fn doc_index(docs: Seq<DocumentView>, h: u64) -> int {
    choose|i: int| 0 <= i < docs.len() && docs[i].source_hash == h
}

/// Whether some version carries identifier `id`.
pub open spec fn has_version_id(vs: Seq<ProcessingVersionView>, id: u128) -> bool {
    exists|i: int| 0 <= i < vs.len() && vs[i].id == id
}

/// Whether document `d` has a version numbered `n`.
pub open spec fn has_version(vs: Seq<ProcessingVersionView>, d: u128, n: int) -> bool {
    exists|i: int| 0 <= i < vs.len() && vs[i].document_id == d && vs[i].version_number == n
}

/// The index of document `d`'s version numbered `n` (unique in a
/// well-formed ledger).
pub open spec fn version_index(vs: Seq<ProcessingVersionView>, d: u128, n: int) -> int {
    choose|i: int| 0 <= i < vs.len() && vs[i].document_id == d && vs[i].version_number == n
}

/// The highest version number document `d` has, zero when it has none.
pub open spec fn max_version(vs: Seq<ProcessingVersionView>, d: u128) -> int
    decreases vs.len(),
{
    if vs.len() == 0 {
        0
    } else {
        let m = max_version(vs.drop_last(), d);
        if vs.last().document_id == d && vs.last().version_number > m {
            vs.last().version_number as int
        } else {
            m
        }
    }
}

pub proof fn lemma_max_version_props(vs: Seq<ProcessingVersionView>, d: u128)
    ensures
        max_version(vs, d) >= 0,
        max_version(vs, d) > 0 ==> has_version(vs, d, max_version(vs, d)),
        forall|i: int|
            0 <= i < vs.len() && (#[trigger] vs[i]).document_id == d ==> vs[i].version_number
                <= max_version(vs, d),
    decreases vs.len(),
{
    if vs.len() == 0 {
    } else {
        let prefix = vs.drop_last();
        lemma_max_version_props(prefix, d);
        if max_version(vs, d) > 0 {
            if vs.last().document_id == d && vs.last().version_number > max_version(prefix, d) {
                assert(vs[vs.len() - 1] == vs.last());
            } else {
                let w = choose|i: int|
                    0 <= i < prefix.len() && prefix[i].document_id == d && prefix[i].version_number
                        == max_version(prefix, d);
                assert(vs[w] == prefix[w]);
            }
        }
        assert forall|i: int|
            0 <= i < vs.len() && (#[trigger] vs[i]).document_id == d implies vs[i].version_number
            <= max_version(vs, d) by {
            if i < vs.len() - 1 {
                assert(vs[i] == prefix[i]);
            }
        }
    }
}

pub proof fn lemma_max_version_absent(vs: Seq<ProcessingVersionView>, d: u128)
    requires
        forall|i: int| 0 <= i < vs.len() ==> (#[trigger] vs[i]).document_id != d,
    ensures
        max_version(vs, d) == 0,
    decreases vs.len(),
{
    if vs.len() == 0 {
    } else {
        let prefix = vs.drop_last();
        assert forall|i: int| 0 <= i < prefix.len() implies (#[trigger] prefix[i]).document_id
            != d by {
            assert(prefix[i] == vs[i]);
        }
        lemma_max_version_absent(prefix, d);
    }
}

/// The in-memory model of the store: every committed row of the ledger's
/// six row kinds.
pub struct LedgerState {
    pub documents: Vec<Document>,
    pub versions: Vec<ProcessingVersion>,
    pub raw_files: Vec<RawFileRecord>,
    pub seed_examples: Vec<SeedExampleRecord>,
    pub action_items: Vec<ActionItem>,
    pub chunks: Vec<Chunk>,
}

impl LedgerState {
    /// Well-formedness: identifiers and fingerprints are unique, version
    /// numbers are contiguous from one per document and never shared, and
    /// every child row references an existing version.
    pub open spec fn wf(self) -> bool {
        let docs = self.documents.deep_view();
        let vs = self.versions.deep_view();
        let ais = self.action_items.deep_view();
        let cs = self.chunks.deep_view();
        let rfs = self.raw_files.deep_view();
        let ses = self.seed_examples.deep_view();
        &&& forall|i: int, j: int|
            0 <= i < j < docs.len() ==> (#[trigger] docs[i]).id != (#[trigger] docs[j]).id
        &&& forall|i: int, j: int|
            0 <= i < j < docs.len() ==> (#[trigger] docs[i]).source_hash != (
            #[trigger] docs[j]).source_hash
        &&& forall|i: int, j: int|
            0 <= i < j < vs.len() ==> (#[trigger] vs[i]).id != (#[trigger] vs[j]).id
        &&& forall|i: int| 0 <= i < vs.len() ==> has_doc_id(docs, (#[trigger] vs[i]).document_id)
        &&& forall|i: int| 0 <= i < vs.len() ==> 1 <= (#[trigger] vs[i]).version_number
        &&& forall|i: int, j: int|
            0 <= i < j < vs.len() ==> !((#[trigger] vs[i]).document_id == (
            #[trigger] vs[j]).document_id && vs[i].version_number == vs[j].version_number)
        &&& forall|i: int|
            0 <= i < vs.len() && (#[trigger] vs[i]).version_number > 1 ==> has_version(
                vs,
                vs[i].document_id,
                vs[i].version_number - 1,
            )
        &&& forall|i: int|
            0 <= i < ais.len() ==> has_version_id(vs, (#[trigger] ais[i]).processing_version_id)
        &&& forall|i: int|
            0 <= i < cs.len() ==> has_version_id(vs, (#[trigger] cs[i]).processing_version_id)
        &&& forall|i: int|
            0 <= i < rfs.len() ==> has_version_id(vs, (#[trigger] rfs[i]).processing_version_id)
        &&& forall|i: int|
            0 <= i < ses.len() ==> has_version_id(vs, (#[trigger] ses[i]).processing_version_id)
        &&& forall|i: int, j: int|
            0 <= i < j < cs.len() && (#[trigger] cs[i]).processing_version_id == (
            #[trigger] cs[j]).processing_version_id ==> cs[i].position != cs[j].position
        &&& forall|i: int, j: int|
            0 <= i < ais.len() && 0 <= j < vs.len() && (#[trigger] ais[i]).processing_version_id
                == (#[trigger] vs[j]).id ==> vs[j].status != VersionStatus::Processing
        &&& forall|i: int, j: int|
            0 <= i < cs.len() && 0 <= j < vs.len() && (#[trigger] cs[i]).processing_version_id == (
            #[trigger] vs[j]).id ==> vs[j].status != VersionStatus::Processing
    }

    /// An empty ledger.
    pub fn new() -> (r: LedgerState)
        ensures
            r.wf(),
            r.documents.deep_view() == Seq::<DocumentView>::empty(),
            r.versions.deep_view() == Seq::<ProcessingVersionView>::empty(),
            r.raw_files.deep_view() == Seq::<RawFileRecordView>::empty(),
            r.seed_examples.deep_view() == Seq::<SeedExampleRecordView>::empty(),
            r.action_items@ == Seq::<ActionItem>::empty(),
            r.chunks@ == Seq::<Chunk>::empty(),
    {
        let r = LedgerState {
            documents: Vec::new(),
            versions: Vec::new(),
            raw_files: Vec::new(),
            seed_examples: Vec::new(),
            action_items: Vec::new(),
            chunks: Vec::new(),
        };
        proof {
            assert(r.documents.deep_view() =~= Seq::<DocumentView>::empty());
            assert(r.versions.deep_view() =~= Seq::<ProcessingVersionView>::empty());
            assert(r.raw_files.deep_view() =~= Seq::<RawFileRecordView>::empty());
            assert(r.seed_examples.deep_view() =~= Seq::<SeedExampleRecordView>::empty());
        }
        r
    }
}

/// The index of the first document carrying fingerprint `h`.
fn find_doc_by_fingerprint(docs: &Vec<Document>, h: u64) -> (r: Option<usize>)
    ensures
        match r {
            Some(i) => {
                &&& i < docs.len()
                &&& docs.deep_view()[i as int].source_hash == h
                &&& has_fingerprint(docs.deep_view(), h)
            },
            None => !has_fingerprint(docs.deep_view(), h),
        },
{
    let ghost s = docs.deep_view();
    let mut i: usize = 0;
    while i < docs.len()
        invariant
            i <= docs.len(),
            s == docs.deep_view(),
            forall|l: int| 0 <= l < i ==> s[l].source_hash != h,
        decreases docs.len() - i,
    {
        if docs[i].source_hash == h {
            return Some(i);
        }
        i = i + 1;
    }
    None
}

/// Whether any committed document carries identifier `id`.
fn contains_doc_id(docs: &Vec<Document>, id: u128) -> (r: bool)
    ensures
        r == has_doc_id(docs.deep_view(), id),
{
    let ghost s = docs.deep_view();
    let mut i: usize = 0;
    while i < docs.len()
        invariant
            i <= docs.len(),
            s == docs.deep_view(),
            forall|l: int| 0 <= l < i ==> s[l].id != id,
        decreases docs.len() - i,
    {
        if docs[i].id == id {
            proof {
                assert(s[i as int].id == id);
            }
            return true;
        }
        i = i + 1;
    }
    false
}

/// Whether any committed version carries identifier `id`.
fn contains_version_id(vs: &Vec<ProcessingVersion>, id: u128) -> (r: bool)
    ensures
        r == has_version_id(vs.deep_view(), id),
{
    let ghost s = vs.deep_view();
    let mut i: usize = 0;
    while i < vs.len()
        invariant
            i <= vs.len(),
            s == vs.deep_view(),
            forall|l: int| 0 <= l < i ==> s[l].id != id,
        decreases vs.len() - i,
    {
        if vs[i].id == id {
            proof {
                assert(s[i as int].id == id);
            }
            return true;
        }
        i = i + 1;
    }
    false
}

/// The highest committed version number of document `d`, zero when it has
/// none.
fn max_version_number(vs: &Vec<ProcessingVersion>, d: u128) -> (r: i32)
    ensures
        r as int == max_version(vs.deep_view(), d),
        r >= 0,
{
    let ghost s = vs.deep_view();
    let mut m: i32 = 0;
    let mut i: usize = 0;
    while i < vs.len()
        invariant
            i <= vs.len(),
            s == vs.deep_view(),
            m as int == max_version(s.subrange(0, i as int), d),
            m >= 0,
        decreases vs.len() - i,
    {
        proof {
            let next = s.subrange(0, i + 1 as int);
            assert(next.drop_last() =~= s.subrange(0, i as int));
            assert(next.last() == s[i as int]);
        }
        if vs[i].document_id == d && vs[i].version_number > m {
            m = vs[i].version_number;
        }
        i = i + 1;
    }
    proof {
        assert(s.subrange(0, s.len() as int) =~= s);
    }
    m
}

/// Whether the candidate identifiers of an ingestion would collide with a
/// committed row: a new document's identifier must be fresh, and the new
/// version's identifier always must be.
pub open spec fn ingest_conflict(
    pre: LedgerState,
    doc_candidate: u128,
    version_candidate: u128,
    h: u64,
) -> bool {
    let docs = pre.documents.deep_view();
    ||| (!has_fingerprint(docs, h) && has_doc_id(docs, doc_candidate))
    ||| has_version_id(pre.versions.deep_view(), version_candidate)
}

/// The document identifier an ingestion resolves to: the committed document
/// with the payload's fingerprint when one exists, else the fresh candidate.
pub open spec fn target_doc_id(docs: Seq<DocumentView>, h: u64, doc_candidate: u128) -> u128 {
    if has_fingerprint(docs, h) {
        docs[doc_index(docs, h)].id
    } else {
        doc_candidate
    }
}

/// The stored form of the seed examples of one ingestion, each tied to the
/// new version.
pub open spec fn stamped_examples(v: u128, examples: Seq<ClassificationExampleView>) -> Seq<
    SeedExampleRecordView,
> {
    examples.map_values(
        |e: ClassificationExampleView|
            SeedExampleRecordView {
                processing_version_id: v,
                example_text: e.example_text,
                example_label: e.example_label,
            },
    )
}

/// What one committed ingestion did: the document was resolved or created
/// by fingerprint, exactly one version row was appended with the next
/// version number and `Processing` status, the raw artifact and the seed
/// examples were tied to it, and nothing else changed. A refused ingestion
/// changed nothing and is refused exactly on an identifier collision.
pub open spec fn ingest_post(
    pre: LedgerState,
    post: LedgerState,
    doc_candidate: u128,
    version_candidate: u128,
    h: u64,
    file_name: Seq<char>,
    mime_type: Seq<char>,
    content: Seq<u8>,
    examples: Seq<ClassificationExampleView>,
    now: i64,
    r: Result<(u128, u128), IngestError>,
) -> bool {
    let docs = pre.documents.deep_view();
    let vs = pre.versions.deep_view();
    match r {
        Ok(ids) => {
            &&& !ingest_conflict(pre, doc_candidate, version_candidate, h)
            &&& ids.0 == target_doc_id(docs, h, doc_candidate)
            &&& ids.1 == version_candidate
            &&& !has_version_id(vs, ids.1)
            &&& if has_fingerprint(docs, h) {
                post.documents.deep_view() == docs.update(
                    doc_index(docs, h),
                    (DocumentView { updated_at: now, ..docs[doc_index(docs, h)] }),
                )
            } else {
                post.documents.deep_view() == docs.push(
                    (DocumentView { id: ids.0, source_hash: h, created_at: now, updated_at: now }),
                )
            }
            &&& post.versions.deep_view() == vs.push(
                (ProcessingVersionView {
                    id: ids.1,
                    document_id: ids.0,
                    version_number: (max_version(vs, ids.0) + 1) as i32,
                    status: VersionStatus::Processing,
                    summary_text: None,
                    summary_type: None,
                    summary_confidence: None,
                    created_at: now,
                }),
            )
            &&& post.raw_files.deep_view() == pre.raw_files.deep_view().push(
                (RawFileRecordView {
                    processing_version_id: ids.1,
                    file_name: file_name,
                    mime_type: mime_type,
                    content: content,
                }),
            )
            &&& post.seed_examples.deep_view() == pre.seed_examples.deep_view() + stamped_examples(
                ids.1,
                examples,
            )
            &&& post.action_items.deep_view() == pre.action_items.deep_view()
            &&& post.chunks.deep_view() == pre.chunks.deep_view()
            &&& post.wf()
        },
        Err(e) => {
            &&& e == IngestError::IdConflict
            &&& ingest_conflict(pre, doc_candidate, version_candidate, h)
            &&& post == pre
        },
    }
}

impl LedgerState {
    /// The deterministic core of the ingestion transaction, taking the two
    /// externally drawn candidate identifiers as arguments: it commits
    /// exactly when neither candidate collides with a committed row.
    pub fn apply_ingest(
        &mut self,
        doc_candidate: u128,
        version_candidate: u128,
        source_hash: u64,
        file: RawFile<'_>,
        examples: &Vec<ClassificationExample>,
        now: i64,
    ) -> (r: Result<(u128, u128), IngestError>)
        requires
            old(self).wf(),
            !ingest_conflict(*old(self), doc_candidate, version_candidate, source_hash)
                ==> max_version(
                old(self).versions.deep_view(),
                target_doc_id(old(self).documents.deep_view(), source_hash, doc_candidate),
            ) < i32::MAX as int,
        ensures
            ingest_post(
                *old(self),
                *final(self),
                doc_candidate,
                version_candidate,
                source_hash,
                file.file_name@,
                file.mime_type@,
                file.content@,
                examples.deep_view(),
                now,
                r,
            ),
    {
        let ghost docs0 = self.documents.deep_view();
        let ghost vs0 = self.versions.deep_view();
        let doc_slot = find_doc_by_fingerprint(&self.documents, source_hash);
        let id_taken = match doc_slot {
            None => contains_doc_id(&self.documents, doc_candidate),
            Some(_) => false,
        };
        let version_taken = contains_version_id(&self.versions, version_candidate);
        if id_taken || version_taken {
            return Err(IngestError::IdConflict);
        }
        let document_id: u128;
        match doc_slot {
            Some(slot) => {
                proof {
                    let j = doc_index(docs0, source_hash);
                    if j != slot as int {
                        assert(docs0[j].source_hash == docs0[slot as int].source_hash);
                        assert(false);
                    }
                }
                document_id = self.documents[slot].id;
                let bumped = Document {
                    id: self.documents[slot].id,
                    source_hash: self.documents[slot].source_hash,
                    created_at: self.documents[slot].created_at,
                    updated_at: now,
                };
                self.documents.set(slot, bumped);
                proof {
                    assert(self.documents.deep_view() =~= docs0.update(
                        doc_index(docs0, source_hash),
                        (DocumentView { updated_at: now, ..docs0[doc_index(docs0, source_hash)] }),
                    ));
                }
            },
            None => {
                document_id = doc_candidate;
                self.documents.push(
                    Document { id: doc_candidate, source_hash, created_at: now, updated_at: now },
                );
                proof {
                    assert(self.documents.deep_view() =~= docs0.push(
                        (DocumentView {
                            id: doc_candidate,
                            source_hash: source_hash,
                            created_at: now,
                            updated_at: now,
                        }),
                    ));
                }
            },
        }
        let previous_max = max_version_number(&self.versions, document_id);
        proof {
            lemma_max_version_props(vs0, document_id);
        }
        let version = ProcessingVersion {
            id: version_candidate,
            document_id,
            version_number: previous_max + 1,
            status: VersionStatus::Processing,
            summary_text: None,
            summary_type: None,
            summary_confidence: None,
            created_at: now,
        };
        let ghost vnew = version.deep_view();
        self.versions.push(version);
        proof {
            assert(self.versions.deep_view() =~= vs0.push(vnew));
        }
        let ghost rfs0 = self.raw_files.deep_view();
        let record = RawFileRecord {
            processing_version_id: version_candidate,
            file_name: file.file_name.to_owned(),
            mime_type: file.mime_type.to_owned(),
            content: slice_to_vec(file.content),
        };
        proof {
            assert(record.content.deep_view() =~= file.content@);
            assert(record.deep_view() == (RawFileRecordView {
                processing_version_id: version_candidate,
                file_name: file.file_name@,
                mime_type: file.mime_type@,
                content: file.content@,
            }));
        }
        self.raw_files.push(record);
        proof {
            assert(self.raw_files.deep_view() =~= rfs0.push(
                (RawFileRecordView {
                    processing_version_id: version_candidate,
                    file_name: file.file_name@,
                    mime_type: file.mime_type@,
                    content: file.content@,
                }),
            ));
        }
        let ghost ses0 = self.seed_examples.deep_view();
        let ghost exv = examples.deep_view();
        let ghost snap = *self;
        let mut k: usize = 0;
        while k < examples.len()
            invariant
                k <= examples.len(),
                exv == examples.deep_view(),
                self.seed_examples.deep_view() =~= ses0 + stamped_examples(
                    version_candidate,
                    exv.subrange(0, k as int),
                ),
                self.documents == snap.documents,
                self.versions == snap.versions,
                self.raw_files == snap.raw_files,
                self.action_items == snap.action_items,
                self.chunks == snap.chunks,
            decreases examples.len() - k,
        {
            let ex = examples[k].clone();
            proof {
                assert(ex.deep_view() == exv[k as int]);
            }
            let stamped = SeedExampleRecord {
                processing_version_id: version_candidate,
                example_text: ex.example_text,
                example_label: ex.example_label,
            };
            proof {
                assert(stamped.deep_view() == (SeedExampleRecordView {
                    processing_version_id: version_candidate,
                    example_text: exv[k as int].example_text,
                    example_label: exv[k as int].example_label,
                }));
            }
            let ghost rec_view = stamped.deep_view();
            let ghost before_push = self.seed_examples.deep_view();
            self.seed_examples.push(stamped);
            proof {
                assert(self.seed_examples.deep_view() =~= before_push.push(rec_view));
                assert(stamped_examples(version_candidate, exv.subrange(0, k + 1 as int))
                    =~= stamped_examples(version_candidate, exv.subrange(0, k as int)).push(
                    rec_view,
                ));
                assert(self.seed_examples.deep_view() =~= ses0 + stamped_examples(
                    version_candidate,
                    exv.subrange(0, k + 1 as int),
                ));
            }
            k = k + 1;
        }
        proof {
            assert(exv.subrange(0, exv.len() as int) =~= exv);
            assert(self.seed_examples.deep_view() =~= ses0 + stamped_examples(
                version_candidate,
                exv,
            ));
        }
        proof {
            lemma_wf_after_ingest(
                *old(self),
                *self,
                document_id,
                version_candidate,
                source_hash,
                doc_candidate,
                now,
            );
        }
        Ok((document_id, version_candidate))
    }
}

/// Committing one ingestion preserves every ledger invariant.
proof fn lemma_wf_after_ingest(
    pre: LedgerState,
    post: LedgerState,
    d: u128,
    v: u128,
    h: u64,
    doc_candidate: u128,
    now: i64,
)
    requires
        pre.wf(),
        !ingest_conflict(pre, doc_candidate, v, h),
        d == target_doc_id(pre.documents.deep_view(), h, doc_candidate),
        max_version(pre.versions.deep_view(), d) < i32::MAX as int,
        if has_fingerprint(pre.documents.deep_view(), h) {
            post.documents.deep_view() == pre.documents.deep_view().update(
                doc_index(pre.documents.deep_view(), h),
                (DocumentView {
                    updated_at: now,
                    ..pre.documents.deep_view()[doc_index(pre.documents.deep_view(), h)]
                }),
            )
        } else {
            post.documents.deep_view() == pre.documents.deep_view().push(
                (DocumentView { id: d, source_hash: h, created_at: now, updated_at: now }),
            )
        },
        post.versions.deep_view() == pre.versions.deep_view().push(
            (ProcessingVersionView {
                id: v,
                document_id: d,
                version_number: (max_version(pre.versions.deep_view(), d) + 1) as i32,
                status: VersionStatus::Processing,
                summary_text: None,
                summary_type: None,
                summary_confidence: None,
                created_at: now,
            }),
        ),
        forall|i: int|
            0 <= i < post.raw_files.deep_view().len() ==> (
            #[trigger] post.raw_files.deep_view()[i]).processing_version_id == v || (
            i < pre.raw_files.deep_view().len() && post.raw_files.deep_view()[i]
                == pre.raw_files.deep_view()[i]),
        forall|i: int|
            0 <= i < post.seed_examples.deep_view().len() ==> (
            #[trigger] post.seed_examples.deep_view()[i]).processing_version_id == v || (
            i < pre.seed_examples.deep_view().len() && post.seed_examples.deep_view()[i]
                == pre.seed_examples.deep_view()[i]),
        post.action_items.deep_view() == pre.action_items.deep_view(),
        post.chunks.deep_view() == pre.chunks.deep_view(),
    ensures
        post.wf(),
{
    let docs = pre.documents.deep_view();
    let vs = pre.versions.deep_view();
    let docs1 = post.documents.deep_view();
    let vs1 = post.versions.deep_view();
    lemma_max_version_props(vs, d);
    if has_fingerprint(docs, h) {
        let j = doc_index(docs, h);
        assert(0 <= j < docs.len());
        assert(docs1.len() == docs.len());
        assert(docs1[j].id == docs[j].id);
        assert(forall|i: int| 0 <= i < docs.len() && i != j ==> docs1[i] == docs[i]);
    } else {
        assert(docs1.drop_last() =~= docs);
    }
    assert(vs1.drop_last() =~= vs);
    assert(vs1.last().document_id == d);
    assert(has_doc_id(docs1, d)) by {
        if has_fingerprint(docs, h) {
            let j = doc_index(docs, h);
            assert(docs1[j].id == d);
        } else {
            assert(docs1[docs1.len() - 1].id == d);
        }
    }
    assert forall|i: int| 0 <= i < vs1.len() implies has_doc_id(docs1, (
    #[trigger] vs1[i]).document_id) by {
        if i < vs.len() {
            assert(vs1[i] == vs[i]);
            let w = choose|l: int| 0 <= l < docs.len() && docs[l].id == vs[i].document_id;
            if has_fingerprint(docs, h) {
                assert(docs1[w].id == docs[w].id);
            } else {
                assert(docs1[w] == docs[w]);
            }
        }
    }
    assert forall|i: int, j: int| 0 <= i < j < vs1.len() implies !((
    #[trigger] vs1[i]).document_id == (#[trigger] vs1[j]).document_id && vs1[i].version_number
        == vs1[j].version_number) by {
        if j == vs1.len() - 1 && vs1[i].document_id == d {
            assert(vs1[i] == vs[i]);
            assert(vs[i].version_number <= max_version(vs, d));
        }
    }
    assert forall|i: int| 0 <= i < vs1.len() && (#[trigger] vs1[i]).version_number > 1 implies
        has_version(vs1, vs1[i].document_id, vs1[i].version_number - 1) by {
        if i < vs.len() {
            assert(vs1[i] == vs[i]);
            let w = choose|l: int|
                0 <= l < vs.len() && vs[l].document_id == vs[i].document_id
                    && vs[l].version_number == vs[i].version_number - 1;
            assert(vs1[w] == vs[w]);
        } else {
            assert(vs1[i].version_number == max_version(vs, d) + 1);
            assert(max_version(vs, d) > 0);
            let w = choose|l: int|
                0 <= l < vs.len() && vs[l].document_id == d && vs[l].version_number == max_version(
                    vs,
                    d,
                );
            assert(vs1[w] == vs[w]);
        }
    }
    assert forall|i: int|
        0 <= i < post.action_items.deep_view().len() implies has_version_id(
        vs1,
        (#[trigger] post.action_items.deep_view()[i]).processing_version_id,
    ) by {
        let ai = pre.action_items.deep_view();
        let w = choose|l: int| 0 <= l < vs.len() && vs[l].id == ai[i].processing_version_id;
        assert(vs1[w] == vs[w]);
    }
    assert forall|i: int|
        0 <= i < post.chunks.deep_view().len() implies has_version_id(
        vs1,
        (#[trigger] post.chunks.deep_view()[i]).processing_version_id,
    ) by {
        let cs = pre.chunks.deep_view();
        let w = choose|l: int| 0 <= l < vs.len() && vs[l].id == cs[i].processing_version_id;
        assert(vs1[w] == vs[w]);
    }
    assert(has_version_id(vs1, v)) by {
        assert(vs1[vs1.len() - 1].id == v);
    }
    assert forall|i: int|
        0 <= i < post.raw_files.deep_view().len() implies has_version_id(
        vs1,
        (#[trigger] post.raw_files.deep_view()[i]).processing_version_id,
    ) by {
        if i < pre.raw_files.deep_view().len() && post.raw_files.deep_view()[i]
            == pre.raw_files.deep_view()[i] {
            let w = choose|l: int|
                0 <= l < vs.len() && vs[l].id == pre.raw_files.deep_view()[i].processing_version_id;
            assert(vs1[w] == vs[w]);
        }
    }
    assert forall|i: int|
        0 <= i < post.seed_examples.deep_view().len() implies has_version_id(
        vs1,
        (#[trigger] post.seed_examples.deep_view()[i]).processing_version_id,
    ) by {
        if i < pre.seed_examples.deep_view().len() && post.seed_examples.deep_view()[i]
            == pre.seed_examples.deep_view()[i] {
            let w = choose|l: int|
                0 <= l < vs.len() && vs[l].id
                    == pre.seed_examples.deep_view()[i].processing_version_id;
            assert(vs1[w] == vs[w]);
        }
    }
    assert forall|i: int, j: int|
        0 <= i < post.action_items.deep_view().len() && 0 <= j < vs1.len() && (
        #[trigger] post.action_items.deep_view()[i]).processing_version_id == (
        #[trigger] vs1[j]).id implies vs1[j].status != VersionStatus::Processing by {
        let ais = pre.action_items.deep_view();
        if j < vs.len() {
            assert(vs1[j] == vs[j]);
        } else {
            assert(vs1[j].id == v);
            assert(has_version_id(vs, ais[i].processing_version_id));
            assert(false);
        }
    }
    assert forall|i: int, j: int|
        0 <= i < post.chunks.deep_view().len() && 0 <= j < vs1.len() && (
        #[trigger] post.chunks.deep_view()[i]).processing_version_id == (#[trigger] vs1[j]).id
        implies vs1[j].status != VersionStatus::Processing by {
        let cs = pre.chunks.deep_view();
        if j < vs.len() {
            assert(vs1[j] == vs[j]);
        } else {
            assert(vs1[j].id == v);
            assert(has_version_id(vs, cs[i].processing_version_id));
            assert(false);
        }
    }
}

/// Relies on uuid::Uuid::new_v4 for a randomly drawn identifier, read out
/// one for one through uuid::Uuid::as_u128; nothing is assumed about the
/// drawn value.
#[verifier::external_body]
fn fresh_id_candidate() -> u128 {
    uuid::Uuid::new_v4().as_u128()
}

impl LedgerState {
    /// The full ingestion operation: refuses an absent payload before the
    /// ledger is touched, fingerprints the content, draws candidate
    /// identifiers and runs the transaction. Whatever identifiers were
    /// drawn, a committed ingestion resolved the document by fingerprint
    /// and appended one `Processing` version with the next version number.
    pub fn ingest(
        &mut self,
        payload: Option<Vec<u8>>,
        file_name: &str,
        mime_type: &str,
        examples: &Vec<ClassificationExample>,
        now: i64,
    ) -> (r: Result<(u128, u128), IngestError>)
        requires
            old(self).wf(),
            payload matches Some(c) ==> (has_fingerprint(
                old(self).documents.deep_view(),
                fingerprint_of(c@),
            ) ==> max_version(
                old(self).versions.deep_view(),
                old(self).documents.deep_view()[doc_index(
                    old(self).documents.deep_view(),
                    fingerprint_of(c@),
                )].id,
            ) < i32::MAX as int),
        ensures
            r == Err::<(u128, u128), IngestError>(IngestError::MissingPayload) <==> payload
                is None,
            payload is None ==> *final(self) == *old(self),
            payload matches Some(c) ==> exists|dc: u128, vc: u128|
                ingest_post(
                    *old(self),
                    *final(self),
                    dc,
                    vc,
                    fingerprint_of(c@),
                    file_name@,
                    mime_type@,
                    c@,
                    examples.deep_view(),
                    now,
                    r,
                ),
    {
        let content = match payload {
            Some(c) => c,
            None => {
                return Err(IngestError::MissingPayload);
            },
        };
        let h = compute_fingerprint(&content);
        let doc_candidate = fresh_id_candidate();
        let version_candidate = fresh_id_candidate();
        proof {
            let docs = self.documents.deep_view();
            let vs = self.versions.deep_view();
            if !ingest_conflict(*self, doc_candidate, version_candidate, h) && !has_fingerprint(
                docs,
                h,
            ) {
                assert forall|i: int| 0 <= i < vs.len() implies (#[trigger] vs[i]).document_id
                    != doc_candidate by {
                    if vs[i].document_id == doc_candidate {
                        assert(has_doc_id(docs, doc_candidate));
                    }
                }
                lemma_max_version_absent(vs, doc_candidate);
            }
        }
        let file = RawFile { file_name, mime_type, content: content.as_slice() };
        let r = self.apply_ingest(doc_candidate, version_candidate, h, file, examples, now);
        proof {
            assert(ingest_post(
                *old(self),
                *self,
                doc_candidate,
                version_candidate,
                h,
                file_name@,
                mime_type@,
                content@,
                examples.deep_view(),
                now,
                r,
            ));
        }
        r
    }
}

/// The artifacts handed back for one version by a read query.
pub struct VersionResults {
    pub action_items: Vec<ActionItem>,
    pub chunks: Vec<Chunk>,
}

/// Why a diff request failed: the named version number does not exist for
/// the document.
#[derive(Clone, Copy, PartialEq, Eq, Structural, Debug)]
pub enum DiffError {
    VersionNotFound(i32),
}

/// Why a worker's completion write was refused.
#[derive(Clone, Copy, PartialEq, Eq, Structural, Debug)]
pub enum CompleteError {
    /// No version carries the given identifier.
    VersionNotFound,
    /// The version already left `Processing`: the status transition
    /// happens exactly once, and its artifacts are write-once.
    AlreadyFinalized,
}

/// The action items belonging to version `vid`, in stored order.
pub open spec fn items_for_version(s: Seq<ActionItemView>, vid: u128) -> Seq<ActionItemView>
    decreases s.len(),
{
    if s.len() == 0 {
        Seq::empty()
    } else {
        let prev = items_for_version(s.drop_last(), vid);
        if s.last().processing_version_id == vid {
            prev.push(s.last())
        } else {
            prev
        }
    }
}

/// The chunks belonging to version `vid`, in stored order.
pub open spec fn chunks_for_version(s: Seq<ChunkView>, vid: u128) -> Seq<ChunkView>
    decreases s.len(),
{
    if s.len() == 0 {
        Seq::empty()
    } else {
        let prev = chunks_for_version(s.drop_last(), vid);
        if s.last().processing_version_id == vid {
            prev.push(s.last())
        } else {
            prev
        }
    }
}

/// Every chunk reported for a version belongs to it and occurs in the
/// ledger.
proof fn lemma_chunks_for_version_occurrence(cs: Seq<ChunkView>, vid: u128)
    ensures
        forall|k: int|
            0 <= k < chunks_for_version(cs, vid).len() ==> (#[trigger] chunks_for_version(
                cs,
                vid,
            )[k]).processing_version_id == vid,
        forall|k: int|
            0 <= k < chunks_for_version(cs, vid).len() ==> exists|m: int|
                0 <= m < cs.len() && cs[m] == (#[trigger] chunks_for_version(cs, vid)[k]),
    decreases cs.len(),
{
    if cs.len() == 0 {
    } else {
        let prefix = cs.drop_last();
        lemma_chunks_for_version_occurrence(prefix, vid);
        let f = chunks_for_version(cs, vid);
        let fp = chunks_for_version(prefix, vid);
        assert forall|k: int| 0 <= k < f.len() implies exists|m: int|
            0 <= m < cs.len() && cs[m] == (#[trigger] f[k]) by {
            if k < fp.len() {
                let m = choose|m: int| 0 <= m < prefix.len() && prefix[m] == fp[k];
                assert(cs[m] == prefix[m]);
            } else {
                assert(f[k] == cs.last());
                assert(cs[cs.len() - 1] == cs.last());
            }
        }
    }
}

/// In a ledger whose chunks have unique positions per version, the chunks
/// reported for one version have pairwise distinct positions.
proof fn lemma_chunks_for_version_distinct(cs: Seq<ChunkView>, vid: u128)
    requires
        forall|i: int, j: int|
            0 <= i < j < cs.len() && (#[trigger] cs[i]).processing_version_id == (
            #[trigger] cs[j]).processing_version_id ==> cs[i].position != cs[j].position,
    ensures
        crate::diff_service::distinct_positions(chunks_for_version(cs, vid)),
    decreases cs.len(),
{
    if cs.len() == 0 {
    } else {
        let prefix = cs.drop_last();
        let x = cs.last();
        assert forall|i: int, j: int|
            0 <= i < j < prefix.len() && (#[trigger] prefix[i]).processing_version_id == (
            #[trigger] prefix[j]).processing_version_id implies prefix[i].position
            != prefix[j].position by {
            assert(prefix[i] == cs[i] && prefix[j] == cs[j]);
        }
        lemma_chunks_for_version_distinct(prefix, vid);
        lemma_chunks_for_version_occurrence(prefix, vid);
        let f = chunks_for_version(cs, vid);
        let fp = chunks_for_version(prefix, vid);
        if x.processing_version_id == vid {
            assert forall|k: int| 0 <= k < fp.len() implies fp[k].position != x.position by {
                let m = choose|m: int| 0 <= m < prefix.len() && prefix[m] == fp[k];
                assert(cs[m] == prefix[m]);
                assert(cs[cs.len() - 1] == x);
            }
            assert forall|i: int, j: int| 0 <= i < j < f.len() implies f[i].position
                != f[j].position by {
                if j < fp.len() {
                } else {
                    assert(f[j] == x && f[i] == fp[i]);
                }
            }
        }
    }
}

/// Collects the action items of version `vid`, in stored order.
fn collect_items(items: &Vec<ActionItem>, vid: u128) -> (r: Vec<ActionItem>)
    ensures
        r.deep_view() == items_for_version(items.deep_view(), vid),
{
    let ghost s = items.deep_view();
    let mut out: Vec<ActionItem> = Vec::new();
    let mut i: usize = 0;
    while i < items.len()
        invariant
            i <= items.len(),
            s == items.deep_view(),
            out.deep_view() == items_for_version(s.subrange(0, i as int), vid),
        decreases items.len() - i,
    {
        let ghost prev = out.deep_view();
        if items[i].processing_version_id == vid {
            out.push(items[i].clone());
            proof {
                assert(out.deep_view() =~= prev.push(s[i as int]));
            }
        }
        proof {
            let next = s.subrange(0, i + 1 as int);
            assert(next.drop_last() =~= s.subrange(0, i as int));
            assert(next.last() == s[i as int]);
        }
        i = i + 1;
    }
    proof {
        assert(s.subrange(0, s.len() as int) =~= s);
    }
    out
}

/// Collects the chunks of version `vid`, in stored order.
fn collect_chunks(chunks: &Vec<Chunk>, vid: u128) -> (r: Vec<Chunk>)
    ensures
        r.deep_view() == chunks_for_version(chunks.deep_view(), vid),
{
    let ghost s = chunks.deep_view();
    let mut out: Vec<Chunk> = Vec::new();
    let mut i: usize = 0;
    while i < chunks.len()
        invariant
            i <= chunks.len(),
            s == chunks.deep_view(),
            out.deep_view() == chunks_for_version(s.subrange(0, i as int), vid),
        decreases chunks.len() - i,
    {
        let ghost prev = out.deep_view();
        if chunks[i].processing_version_id == vid {
            out.push(chunks[i].clone());
            proof {
                assert(out.deep_view() =~= prev.push(s[i as int]));
            }
        }
        proof {
            let next = s.subrange(0, i + 1 as int);
            assert(next.drop_last() =~= s.subrange(0, i as int));
            assert(next.last() == s[i as int]);
        }
        i = i + 1;
    }
    proof {
        assert(s.subrange(0, s.len() as int) =~= s);
    }
    out
}

/// The index of document `d`'s version numbered `n`, if any.
fn find_version_slot(vs: &Vec<ProcessingVersion>, d: u128, n: i32) -> (r: Option<usize>)
    ensures
        match r {
            Some(i) => {
                &&& i < vs.len()
                &&& vs.deep_view()[i as int].document_id == d
                &&& vs.deep_view()[i as int].version_number == n
                &&& has_version(vs.deep_view(), d, n as int)
            },
            None => !has_version(vs.deep_view(), d, n as int),
        },
{
    let ghost s = vs.deep_view();
    let mut i: usize = 0;
    while i < vs.len()
        invariant
            i <= vs.len(),
            s == vs.deep_view(),
            forall|l: int|
                0 <= l < i ==> !((#[trigger] s[l]).document_id == d && s[l].version_number == n),
        decreases vs.len() - i,
    {
        if vs[i].document_id == d && vs[i].version_number == n {
            proof {
                assert(s[i as int].document_id == d && s[i as int].version_number == n);
            }
            return Some(i);
        }
        i = i + 1;
    }
    None
}

/// The index of the version carrying identifier `id`, if any.
fn find_version_by_id(vs: &Vec<ProcessingVersion>, id: u128) -> (r: Option<usize>)
    ensures
        match r {
            Some(i) => i < vs.len() && vs.deep_view()[i as int].id == id && has_version_id(
                vs.deep_view(),
                id,
            ),
            None => !has_version_id(vs.deep_view(), id),
        },
{
    let ghost s = vs.deep_view();
    let mut i: usize = 0;
    while i < vs.len()
        invariant
            i <= vs.len(),
            s == vs.deep_view(),
            forall|l: int| 0 <= l < i ==> (#[trigger] s[l]).id != id,
        decreases vs.len() - i,
    {
        if vs[i].id == id {
            proof {
                assert(s[i as int].id == id);
            }
            return Some(i);
        }
        i = i + 1;
    }
    None
}

/// The index of the document carrying identifier `id`, if any.
fn find_doc_by_id(docs: &Vec<Document>, id: u128) -> (r: Option<usize>)
    ensures
        match r {
            Some(i) => i < docs.len() && docs.deep_view()[i as int].id == id && has_doc_id(
                docs.deep_view(),
                id,
            ),
            None => !has_doc_id(docs.deep_view(), id),
        },
{
    let ghost s = docs.deep_view();
    let mut i: usize = 0;
    while i < docs.len()
        invariant
            i <= docs.len(),
            s == docs.deep_view(),
            forall|l: int| 0 <= l < i ==> (#[trigger] s[l]).id != id,
        decreases docs.len() - i,
    {
        if docs[i].id == id {
            proof {
                assert(s[i as int].id == id);
            }
            return Some(i);
        }
        i = i + 1;
    }
    None
}

impl LedgerState {
    /// The latest version of a document: the one with the highest version
    /// number, whatever its status. Absent exactly when the document has no
    /// versions at all.
    pub fn latest_version(&self, document_id: u128) -> (r: Option<ProcessingVersion>)
        requires
            self.wf(),
        ensures
            match r {
                Some(v) => {
                    &&& max_version(self.versions.deep_view(), document_id) > 0
                    &&& v.deep_view().document_id == document_id
                    &&& v.deep_view().version_number as int == max_version(
                        self.versions.deep_view(),
                        document_id,
                    )
                    &&& has_version(
                        self.versions.deep_view(),
                        document_id,
                        v.deep_view().version_number as int,
                    )
                    &&& v.deep_view() == self.versions.deep_view()[version_index(
                        self.versions.deep_view(),
                        document_id,
                        max_version(self.versions.deep_view(), document_id),
                    )]
                },
                None => max_version(self.versions.deep_view(), document_id) == 0,
            },
    {
        let ghost vs = self.versions.deep_view();
        let m = max_version_number(&self.versions, document_id);
        if m == 0 {
            return None;
        }
        proof {
            lemma_max_version_props(vs, document_id);
        }
        match find_version_slot(&self.versions, document_id, m) {
            Some(i) => {
                proof {
                    let j = version_index(vs, document_id, m as int);
                    if j != i as int {
                        assert(vs[j].document_id == vs[i as int].document_id && vs[j].version_number
                            == vs[i as int].version_number);
                        assert(false);
                    }
                }
                Some(self.versions[i].clone())
            },
            None => {
                proof {
                    assert(false);
                }
                None
            },
        }
    }

    /// The version of a document carrying a specific version number.
    /// Absent exactly when that number was never allocated for the
    /// document.
    pub fn version_by_number(&self, document_id: u128, n: i32) -> (r: Option<ProcessingVersion>)
        requires
            self.wf(),
        ensures
            match r {
                Some(v) => {
                    &&& has_version(self.versions.deep_view(), document_id, n as int)
                    &&& v.deep_view().document_id == document_id
                    &&& v.deep_view().version_number == n
                    &&& v.deep_view() == self.versions.deep_view()[version_index(
                        self.versions.deep_view(),
                        document_id,
                        n as int,
                    )]
                    &&& has_version_id(self.versions.deep_view(), v.deep_view().id)
                },
                None => !has_version(self.versions.deep_view(), document_id, n as int),
            },
    {
        let ghost vs = self.versions.deep_view();
        match find_version_slot(&self.versions, document_id, n) {
            Some(i) => {
                proof {
                    let j = version_index(vs, document_id, n as int);
                    if j != i as int {
                        assert(vs[j].document_id == vs[i as int].document_id && vs[j].version_number
                            == vs[i as int].version_number);
                        assert(false);
                    }
                }
                Some(self.versions[i].clone())
            },
            None => None,
        }
    }

    /// The artifacts of the version of `document_id` numbered `n`: its
    /// action items and chunks in stored order. Absent exactly when that
    /// version does not exist.
    pub fn find_results_by_version_number(&self, document_id: u128, n: i32) -> (r: Option<
        VersionResults,
    >)
        requires
            self.wf(),
        ensures
            match r {
                Some(res) => {
                    &&& has_version(self.versions.deep_view(), document_id, n as int)
                    &&& exists|vid: u128|
                        {
                            &&& #[trigger] has_version_id(self.versions.deep_view(), vid)
                            &&& has_version(self.versions.deep_view(), document_id, n as int)
                            &&& self.versions.deep_view()[version_index(
                                self.versions.deep_view(),
                                document_id,
                                n as int,
                            )].id == vid
                            &&& res.action_items.deep_view() == items_for_version(
                                self.action_items.deep_view(),
                                vid,
                            )
                            &&& res.chunks.deep_view() == chunks_for_version(
                                self.chunks.deep_view(),
                                vid,
                            )
                        }
                },
                None => !has_version(self.versions.deep_view(), document_id, n as int),
            },
    {
        let ghost vs = self.versions.deep_view();
        match find_version_slot(&self.versions, document_id, n) {
            Some(i) => {
                let vid = self.versions[i].id;
                proof {
                    let j = version_index(vs, document_id, n as int);
                    if j != i as int {
                        assert(vs[j].document_id == vs[i as int].document_id && vs[j].version_number
                            == vs[i as int].version_number);
                        assert(false);
                    }
                    assert(vs[i as int].id == vid);
                    assert(has_version_id(vs, vid));
                }
                let action_items = collect_items(&self.action_items, vid);
                let chunks = collect_chunks(&self.chunks, vid);
                Some(VersionResults { action_items, chunks })
            },
            None => None,
        }
    }

    /// The latest version of a document joined with the document's own
    /// fields, plus that version's action items. Absent exactly when the
    /// document has no versions (in particular when it does not exist).
    pub fn find_document_by_id(&self, document_id: u128) -> (r: Option<DocumentQueryResult>)
        requires
            self.wf(),
        ensures
            match r {
                Some(q) => {
                    &&& max_version(self.versions.deep_view(), document_id) > 0
                    &&& has_doc_id(self.documents.deep_view(), document_id)
                    &&& q.document.deep_view().id == document_id
                    &&& exists|i: int, j: int|
                        {
                            &&& 0 <= i < self.documents.deep_view().len()
                            &&& (#[trigger] self.documents.deep_view()[i]).id == document_id
                            &&& 0 <= j < self.versions.deep_view().len()
                            &&& (#[trigger] self.versions.deep_view()[j]).document_id
                                == document_id
                            &&& self.versions.deep_view()[j].version_number as int == max_version(
                                self.versions.deep_view(),
                                document_id,
                            )
                            &&& q.document.deep_view() == (ProcessingVersionWithDocumentView {
                                id: document_id,
                                source_hash: self.documents.deep_view()[i].source_hash,
                                status: self.versions.deep_view()[j].status,
                                summary_text: self.versions.deep_view()[j].summary_text,
                                summary_type: self.versions.deep_view()[j].summary_type,
                                summary_confidence: self.versions.deep_view()[j].summary_confidence,
                                created_at: self.versions.deep_view()[j].created_at,
                                updated_at: self.documents.deep_view()[i].updated_at,
                            })
                            &&& q.action_items.deep_view() == items_for_version(
                                self.action_items.deep_view(),
                                self.versions.deep_view()[j].id,
                            )
                        }
                },
                None => max_version(self.versions.deep_view(), document_id) == 0,
            },
    {
        let latest = match self.latest_version(document_id) {
            Some(v) => v,
            None => {
                return None;
            },
        };
        proof {
            lemma_max_version_props(self.versions.deep_view(), document_id);
        }
        let doc_slot = match find_doc_by_id(&self.documents, document_id) {
            Some(i) => i,
            None => {
                proof {
                    let vs = self.versions.deep_view();
                    let w = choose|l: int|
                        0 <= l < vs.len() && vs[l].document_id == document_id
                            && vs[l].version_number == max_version(vs, document_id);
                    assert(has_doc_id(self.documents.deep_view(), document_id));
                    assert(false);
                }
                return None;
            },
        };
        let ghost vs = self.versions.deep_view();
        let ghost jw = version_index(vs, document_id, max_version(vs, document_id));
        proof {
            assert(latest.deep_view() == vs[jw]);
        }
        let doc = &self.documents[doc_slot];
        let document = ProcessingVersionWithDocument {
            id: document_id,
            source_hash: doc.source_hash,
            status: latest.status,
            summary_text: clone_opt_string(&latest.summary_text),
            summary_type: clone_opt_string(&latest.summary_type),
            summary_confidence: latest.summary_confidence,
            created_at: latest.created_at,
            updated_at: doc.updated_at,
        };
        let action_items = collect_items(&self.action_items, latest.id);
        proof {
            let docs = self.documents.deep_view();
            assert(document.deep_view() == (ProcessingVersionWithDocumentView {
                id: document_id,
                source_hash: docs[doc_slot as int].source_hash,
                status: vs[jw].status,
                summary_text: vs[jw].summary_text,
                summary_type: vs[jw].summary_type,
                summary_confidence: vs[jw].summary_confidence,
                created_at: vs[jw].created_at,
                updated_at: docs[doc_slot as int].updated_at,
            }));
        }
        Some(DocumentQueryResult { document, action_items })
    }
}

/// Finalizing one version preserves every ledger invariant.
proof fn lemma_wf_after_complete(pre: LedgerState, post: LedgerState, j: int, version_id: u128)
    requires
        pre.wf(),
        0 <= j < pre.versions.deep_view().len(),
        pre.versions.deep_view()[j].id == version_id,
        pre.versions.deep_view()[j].status is Processing,
        !(post.versions.deep_view()[j].status is Processing),
        post.versions.deep_view().len() == pre.versions.deep_view().len(),
        post.versions.deep_view()[j].id == version_id,
        post.versions.deep_view()[j].document_id == pre.versions.deep_view()[j].document_id,
        post.versions.deep_view()[j].version_number == pre.versions.deep_view()[j].version_number,
        forall|l: int|
            0 <= l < pre.versions.deep_view().len() && l != j
                ==> #[trigger] post.versions.deep_view()[l] == pre.versions.deep_view()[l],
        post.documents.deep_view() == pre.documents.deep_view(),
        post.raw_files.deep_view() == pre.raw_files.deep_view(),
        post.seed_examples.deep_view() == pre.seed_examples.deep_view(),
        pre.action_items.deep_view().len() <= post.action_items.deep_view().len(),
        forall|i: int|
            0 <= i < pre.action_items.deep_view().len() ==> #[trigger] post.action_items.deep_view()[i]
                == pre.action_items.deep_view()[i],
        forall|i: int|
            pre.action_items.deep_view().len() <= i < post.action_items.deep_view().len() ==> (
            #[trigger] post.action_items.deep_view()[i]).processing_version_id == version_id,
        pre.chunks.deep_view().len() <= post.chunks.deep_view().len(),
        forall|i: int|
            0 <= i < pre.chunks.deep_view().len() ==> #[trigger] post.chunks.deep_view()[i]
                == pre.chunks.deep_view()[i],
        forall|i: int|
            pre.chunks.deep_view().len() <= i < post.chunks.deep_view().len() ==> (
            #[trigger] post.chunks.deep_view()[i]).processing_version_id == version_id,
        forall|i: int, l: int|
            pre.chunks.deep_view().len() <= i < l < post.chunks.deep_view().len() ==> (
            #[trigger] post.chunks.deep_view()[i]).position != (
            #[trigger] post.chunks.deep_view()[l]).position,
    ensures
        post.wf(),
{
    let vs = pre.versions.deep_view();
    let vs1 = post.versions.deep_view();
    let docs = pre.documents.deep_view();
    assert forall|l: int| 0 <= l < vs1.len() implies (#[trigger] vs1[l]).id == vs[l].id && vs1[l].document_id
        == vs[l].document_id && vs1[l].version_number == vs[l].version_number by {
        if l != j {
            assert(vs1[l] == vs[l]);
        }
    }
    assert forall|i: int| 0 <= i < vs1.len() implies has_doc_id(docs, (
    #[trigger] vs1[i]).document_id) by {
        assert(vs1[i].document_id == vs[i].document_id);
    }
    assert forall|i: int| 0 <= i < vs1.len() && (#[trigger] vs1[i]).version_number > 1 implies
        has_version(vs1, vs1[i].document_id, vs1[i].version_number - 1) by {
        assert(vs[i].version_number == vs1[i].version_number);
        assert(has_version(vs, vs[i].document_id, vs[i].version_number - 1));
        let w = choose|l: int|
            0 <= l < vs.len() && vs[l].document_id == vs[i].document_id && vs[l].version_number
                == vs[i].version_number - 1;
        assert(vs1[w].document_id == vs[w].document_id && vs1[w].version_number
            == vs[w].version_number);
    }
    assert forall|i: int|
        0 <= i < post.action_items.deep_view().len() implies has_version_id(
        vs1,
        (#[trigger] post.action_items.deep_view()[i]).processing_version_id,
    ) by {
        if i < pre.action_items.deep_view().len() {
            let w = choose|l: int|
                0 <= l < vs.len() && vs[l].id
                    == pre.action_items.deep_view()[i].processing_version_id;
            assert(vs1[w].id == vs[w].id);
        } else {
            assert(vs1[j].id == version_id);
        }
    }
    assert forall|i: int|
        0 <= i < post.chunks.deep_view().len() implies has_version_id(
        vs1,
        (#[trigger] post.chunks.deep_view()[i]).processing_version_id,
    ) by {
        if i < pre.chunks.deep_view().len() {
            let w = choose|l: int|
                0 <= l < vs.len() && vs[l].id == pre.chunks.deep_view()[i].processing_version_id;
            assert(vs1[w].id == vs[w].id);
        } else {
            assert(vs1[j].id == version_id);
        }
    }
    assert forall|i: int|
        0 <= i < post.raw_files.deep_view().len() implies has_version_id(
        vs1,
        (#[trigger] post.raw_files.deep_view()[i]).processing_version_id,
    ) by {
        let w = choose|l: int|
            0 <= l < vs.len() && vs[l].id == pre.raw_files.deep_view()[i].processing_version_id;
        assert(vs1[w].id == vs[w].id);
    }
    assert forall|i: int|
        0 <= i < post.seed_examples.deep_view().len() implies has_version_id(
        vs1,
        (#[trigger] post.seed_examples.deep_view()[i]).processing_version_id,
    ) by {
        let w = choose|l: int|
            0 <= l < vs.len() && vs[l].id == pre.seed_examples.deep_view()[i].processing_version_id;
        assert(vs1[w].id == vs[w].id);
    }
    let cs = pre.chunks.deep_view();
    let cs1 = post.chunks.deep_view();
    assert forall|i: int, l: int|
        0 <= i < l < cs1.len() && (#[trigger] cs1[i]).processing_version_id == (
        #[trigger] cs1[l]).processing_version_id implies cs1[i].position != cs1[l].position by {
        if l < cs.len() {
        } else if i < cs.len() {
            assert(cs1[l].processing_version_id == version_id);
            assert(cs1[i] == cs[i]);
            assert(cs[i].processing_version_id == vs[j].id && vs[j].status
                is Processing ==> false);
        }
    }
    assert forall|i: int, l: int|
        0 <= i < post.action_items.deep_view().len() && 0 <= l < vs1.len() && (
        #[trigger] post.action_items.deep_view()[i]).processing_version_id == (
        #[trigger] vs1[l]).id implies !(vs1[l].status is Processing) by {
        let ais = pre.action_items.deep_view();
        if i < ais.len() {
            assert(post.action_items.deep_view()[i] == ais[i]);
            if l != j {
                assert(vs1[l] == vs[l]);
            } else {
                assert(ais[i].processing_version_id == vs[j].id);
                assert(false);
            }
        } else {
            if l != j {
                assert(vs1[l].id == vs[l].id && vs1[j].id == vs[j].id);
                assert(vs[l].id == vs[j].id);
                assert(false);
            }
        }
    }
    assert forall|i: int, l: int|
        0 <= i < cs1.len() && 0 <= l < vs1.len() && (#[trigger] cs1[i]).processing_version_id == (
        #[trigger] vs1[l]).id implies !(vs1[l].status is Processing) by {
        if i < cs.len() {
            assert(cs1[i] == cs[i]);
            if l != j {
                assert(vs1[l] == vs[l]);
            } else {
                assert(cs[i].processing_version_id == vs[j].id);
                assert(false);
            }
        } else {
            if l != j {
                assert(vs1[l].id == vs[l].id && vs1[j].id == vs[j].id);
                assert(vs[l].id == vs[j].id);
                assert(false);
            }
        }
    }
}

impl LedgerState {
    /// The external worker's single write: moves one `Processing` version
    /// to its final status, records the summary fields, and attaches the
    /// extracted action items and chunks. The transition happens exactly
    /// once; a version that already left `Processing` is refused, so a
    /// version's rows are write-once.
    pub fn complete_version(
        &mut self,
        version_id: u128,
        status: VersionStatus,
        summary_text: Option<String>,
        summary_type: Option<String>,
        summary_confidence: Option<u32>,
        new_action_items: Vec<ActionItem>,
        new_chunks: Vec<Chunk>,
    ) -> (r: Result<(), CompleteError>)
        requires
            old(self).wf(),
            !(status is Processing),
            forall|i: int|
                0 <= i < new_action_items.deep_view().len() ==> (
                #[trigger] new_action_items.deep_view()[i]).processing_version_id == version_id,
            forall|i: int|
                0 <= i < new_chunks.deep_view().len() ==> (
                #[trigger] new_chunks.deep_view()[i]).processing_version_id == version_id,
            crate::diff_service::distinct_positions(new_chunks.deep_view()),
        ensures
            final(self).wf(),
            match r {
                Ok(_) => {
                    &&& has_version_id(old(self).versions.deep_view(), version_id)
                    &&& exists|j: int|
                        {
                            &&& 0 <= j < old(self).versions.deep_view().len()
                            &&& (#[trigger] old(self).versions.deep_view()[j]).id == version_id
                            &&& old(self).versions.deep_view()[j].status is Processing
                            &&& final(self).versions.deep_view() == old(
                                self,
                            ).versions.deep_view().update(
                                j,
                                (ProcessingVersionView {
                                    status: status,
                                    summary_text: summary_text.deep_view(),
                                    summary_type: summary_type.deep_view(),
                                    summary_confidence: summary_confidence,
                                    ..old(self).versions.deep_view()[j]
                                }),
                            )
                        }
                    &&& final(self).action_items.deep_view() == old(
                        self,
                    ).action_items.deep_view() + new_action_items.deep_view()
                    &&& final(self).chunks.deep_view() == old(self).chunks.deep_view()
                        + new_chunks.deep_view()
                    &&& final(self).documents.deep_view() == old(self).documents.deep_view()
                    &&& final(self).raw_files.deep_view() == old(self).raw_files.deep_view()
                    &&& final(self).seed_examples.deep_view() == old(
                        self,
                    ).seed_examples.deep_view()
                },
                Err(CompleteError::VersionNotFound) => {
                    &&& !has_version_id(old(self).versions.deep_view(), version_id)
                    &&& *final(self) == *old(self)
                },
                Err(CompleteError::AlreadyFinalized) => {
                    &&& has_version_id(old(self).versions.deep_view(), version_id)
                    &&& exists|j: int|
                        {
                            &&& 0 <= j < old(self).versions.deep_view().len()
                            &&& (#[trigger] old(self).versions.deep_view()[j]).id == version_id
                            &&& !(old(self).versions.deep_view()[j].status is Processing)
                        }
                    &&& *final(self) == *old(self)
                },
            },
    {
        let ghost vs = self.versions.deep_view();
        let slot = match find_version_by_id(&self.versions, version_id) {
            Some(i) => i,
            None => {
                return Err(CompleteError::VersionNotFound);
            },
        };
        match self.versions[slot].status {
            VersionStatus::Processing => {},
            _ => {
                proof {
                    assert(vs[slot as int].id == version_id && !(vs[slot as int].status
                        is Processing));
                }
                return Err(CompleteError::AlreadyFinalized);
            },
        }
        let current = &self.versions[slot];
        let updated = ProcessingVersion {
            id: current.id,
            document_id: current.document_id,
            version_number: current.version_number,
            status,
            summary_text,
            summary_type,
            summary_confidence,
            created_at: current.created_at,
        };
        let ghost updated_view = updated.deep_view();
        self.versions.set(slot, updated);
        proof {
            assert(self.versions.deep_view() =~= vs.update(slot as int, updated_view));
        }
        let ghost ais0 = self.action_items.deep_view();
        let ghost newais = new_action_items.deep_view();
        let mut incoming_items = new_action_items;
        self.action_items.append(&mut incoming_items);
        proof {
            assert(self.action_items.deep_view() =~= ais0 + newais);
        }
        let ghost cs0 = self.chunks.deep_view();
        let ghost newcs = new_chunks.deep_view();
        let mut incoming_chunks = new_chunks;
        self.chunks.append(&mut incoming_chunks);
        proof {
            assert(self.chunks.deep_view() =~= cs0 + newcs);
        }
        proof {
            lemma_wf_after_complete(*old(self), *self, slot as int, version_id);
        }
        Ok(())
    }
}

/// What a diff request over the ledger reports: resolution of the two
/// version numbers first (the "from" side checked first, each absence
/// reported with the missing number), then the two artifact diffs of the
/// resolved versions.
pub open spec fn diff_post(
    s: LedgerState,
    document_id: u128,
    from_number: i32,
    to_number: i32,
    scores: Seq<crate::diff_service::PositionScore>,
    r: Result<crate::diff_service::StructuralDiff, DiffError>,
) -> bool {
    let vs = s.versions.deep_view();
    if !has_version(vs, document_id, from_number as int) {
        r == Err::<crate::diff_service::StructuralDiff, DiffError>(
            DiffError::VersionNotFound(from_number),
        )
    } else if !has_version(vs, document_id, to_number as int) {
        r == Err::<crate::diff_service::StructuralDiff, DiffError>(
            DiffError::VersionNotFound(to_number),
        )
    } else {
        match r {
            Ok(d) => {
                &&& d.action_items_diff.deep_view() == crate::diff_service::action_diff(
                    items_for_version(
                        s.action_items.deep_view(),
                        vs[version_index(vs, document_id, from_number as int)].id,
                    ),
                    items_for_version(
                        s.action_items.deep_view(),
                        vs[version_index(vs, document_id, to_number as int)].id,
                    ),
                )
                &&& crate::diff_service::is_chunk_diff(
                    chunks_for_version(
                        s.chunks.deep_view(),
                        vs[version_index(vs, document_id, from_number as int)].id,
                    ),
                    chunks_for_version(
                        s.chunks.deep_view(),
                        vs[version_index(vs, document_id, to_number as int)].id,
                    ),
                    scores,
                    d.chunks_diff.deep_view(),
                )
            },
            Err(_) => false,
        }
    }
}

impl LedgerState {
    /// Reports what changed between two versions of one document: the
    /// structural action-item diff and the position-aligned chunk diff.
    /// A version number that does not exist for the document yields a
    /// not-found outcome naming that number, the "from" side checked
    /// first, whether or not the other side exists.
    pub fn diff(
        &self,
        document_id: u128,
        params: &DiffParams,
        scores: &Vec<crate::diff_service::PositionScore>,
    ) -> (r: Result<crate::diff_service::StructuralDiff, DiffError>)
        requires
            self.wf(),
        ensures
            diff_post(*self, document_id, params.from_version, params.to_version, scores@, r),
    {
        let ghost vs = self.versions.deep_view();
        let from_results = match self.find_results_by_version_number(
            document_id,
            params.from_version,
        ) {
            Some(x) => x,
            None => {
                return Err(DiffError::VersionNotFound(params.from_version));
            },
        };
        let to_results = match self.find_results_by_version_number(document_id, params.to_version) {
            Some(x) => x,
            None => {
                return Err(DiffError::VersionNotFound(params.to_version));
            },
        };
        proof {
            let fvid = vs[version_index(vs, document_id, params.from_version as int)].id;
            let tvid = vs[version_index(vs, document_id, params.to_version as int)].id;
            assert(from_results.chunks.deep_view() == chunks_for_version(
                self.chunks.deep_view(),
                fvid,
            ));
            assert(to_results.chunks.deep_view() == chunks_for_version(
                self.chunks.deep_view(),
                tvid,
            ));
            lemma_chunks_for_version_distinct(self.chunks.deep_view(), fvid);
            lemma_chunks_for_version_distinct(self.chunks.deep_view(), tvid);
        }
        let action_items_diff = crate::diff_service::compare_action_items(
            from_results.action_items,
            to_results.action_items,
        );
        let chunks_diff = crate::diff_service::compare_chunks_semantic(
            from_results.chunks,
            to_results.chunks,
            scores,
        );
        Ok(crate::diff_service::StructuralDiff { action_items_diff, chunks_diff })
    }
}

/// Two ingestions of byte-identical content resolve to one document and
/// allocate the version numbers one and two, with two distinct version
/// identifiers, whatever candidate identifiers were drawn: dedup by
/// fingerprint plus serialized allocation never collides and never skips a
/// number.
pub proof fn lemma_ingest_identical_pair(
    s0: LedgerState,
    s1: LedgerState,
    s2: LedgerState,
    dc1: u128,
    vc1: u128,
    dc2: u128,
    vc2: u128,
    content: Seq<u8>,
    file_name1: Seq<char>,
    mime1: Seq<char>,
    examples1: Seq<ClassificationExampleView>,
    now1: i64,
    file_name2: Seq<char>,
    mime2: Seq<char>,
    examples2: Seq<ClassificationExampleView>,
    now2: i64,
    d1: u128,
    v1: u128,
    d2: u128,
    v2: u128,
)
    requires
        s0.wf(),
        !has_fingerprint(s0.documents.deep_view(), fingerprint_of(content)),
        ingest_post(
            s0,
            s1,
            dc1,
            vc1,
            fingerprint_of(content),
            file_name1,
            mime1,
            content,
            examples1,
            now1,
            Ok((d1, v1)),
        ),
        ingest_post(
            s1,
            s2,
            dc2,
            vc2,
            fingerprint_of(content),
            file_name2,
            mime2,
            content,
            examples2,
            now2,
            Ok((d2, v2)),
        ),
    ensures
        d1 == d2,
        v1 != v2,
        has_version(s2.versions.deep_view(), d1, 1),
        has_version(s2.versions.deep_view(), d1, 2),
        max_version(s2.versions.deep_view(), d1) == 2,
{
    let h = fingerprint_of(content);
    let docs0 = s0.documents.deep_view();
    let vs0 = s0.versions.deep_view();
    let docs1 = s1.documents.deep_view();
    let vs1 = s1.versions.deep_view();
    let vs2 = s2.versions.deep_view();
    assert(d1 == dc1);
    assert(!has_doc_id(docs0, dc1));
    assert forall|i: int| 0 <= i < vs0.len() implies (#[trigger] vs0[i]).document_id != d1 by {
        if vs0[i].document_id == d1 {
            assert(has_doc_id(docs0, d1));
        }
    }
    lemma_max_version_absent(vs0, d1);
    let x1 = (ProcessingVersionView {
        id: v1,
        document_id: d1,
        version_number: 1 as i32,
        status: VersionStatus::Processing,
        summary_text: None,
        summary_type: None,
        summary_confidence: None,
        created_at: now1,
    });
    assert(vs1 == vs0.push(x1));
    assert(docs1 == docs0.push(
        (DocumentView { id: d1, source_hash: h, created_at: now1, updated_at: now1 }),
    ));
    assert(has_fingerprint(docs1, h)) by {
        assert(docs1[docs1.len() - 1].source_hash == h);
    }
    assert(d2 == docs1[doc_index(docs1, h)].id);
    assert(d2 == d1) by {
        let j = doc_index(docs1, h);
        assert(0 <= j < docs1.len() && docs1[j].source_hash == h);
        if j != docs1.len() - 1 {
            assert(docs1[j].source_hash != docs1[docs1.len() - 1].source_hash);
            assert(false);
        }
    }
    assert(v1 != v2) by {
        assert(vs1[vs1.len() - 1].id == v1);
        assert(has_version_id(vs1, v1));
        assert(!has_version_id(vs1, v2));
    }
    assert(max_version(vs1, d1) == 1) by {
        assert(vs1.drop_last() =~= vs0);
        assert(vs1.last() == x1);
    }
    let x2 = (ProcessingVersionView {
        id: v2,
        document_id: d1,
        version_number: 2 as i32,
        status: VersionStatus::Processing,
        summary_text: None,
        summary_type: None,
        summary_confidence: None,
        created_at: now2,
    });
    assert(vs2 == vs1.push(x2));
    assert(max_version(vs2, d1) == 2) by {
        assert(vs2.drop_last() =~= vs1);
        assert(vs2.last() == x2);
    }
    assert(has_version(vs2, d1, 1)) by {
        assert(vs2[vs0.len() as int] == x1);
    }
    assert(has_version(vs2, d1, 2)) by {
        assert(vs2[vs2.len() - 1] == x2);
    }
}

/// Diffing an existing version against itself is valid: it reports only
/// unchanged action items and only unchanged chunks scored with distance
/// zero.
pub proof fn lemma_diff_same_version(
    s: LedgerState,
    document_id: u128,
    n: i32,
    scores: Seq<crate::diff_service::PositionScore>,
    r: Result<crate::diff_service::StructuralDiff, DiffError>,
)
    requires
        s.wf(),
        has_version(s.versions.deep_view(), document_id, n as int),
        diff_post(s, document_id, n, n, scores, r),
    ensures
        r is Ok,
        forall|i: int|
            0 <= i < (r->Ok_0).action_items_diff.deep_view().len() ==> (#[trigger] (
            r->Ok_0).action_items_diff.deep_view()[i]).status
                == crate::diff_service::DiffStatus::Unchanged,
        forall|i: int|
            0 <= i < (r->Ok_0).chunks_diff.deep_view().len() ==> (#[trigger] (
            r->Ok_0).chunks_diff.deep_view()[i]).status
                == crate::diff_service::DiffStatus::Unchanged && (
            r->Ok_0).chunks_diff.deep_view()[i].semantic_distance == Some(0u32),
{
    let vs = s.versions.deep_view();
    let vid = vs[version_index(vs, document_id, n as int)].id;
    let d = r->Ok_0;
    crate::diff_service::lemma_action_diff_identity(
        items_for_version(s.action_items.deep_view(), vid),
    );
    crate::diff_service::lemma_chunk_diff_identity(
        chunks_for_version(s.chunks.deep_view(), vid),
        scores,
        d.chunks_diff.deep_view(),
    );
}

} // verus!
