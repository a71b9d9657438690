use autoloop_core::keyed::TextMap;
use autoloop_core::memory::supermemory::{IngestionJob, ProcessingStatus, SupermemoryKernel};

#[test]
fn chunking_is_stable_for_same_input() {
    let kernel = SupermemoryKernel {
        chunk_char_target: 72,
        chunk_overlap_chars: 12,
        embedding_dimensions: 16,
    };
    let job = IngestionJob {
        job_id: "job:stable".into(),
        session_id: "session-stable".into(),
        tenant_id: "tenant-stable".into(),
        source: "unit-test".into(),
        document_id: "doc:stable".into(),
        metadata: TextMap::new(),
        document_date: None,
        event_date: None,
        queued_at_ms: 1,
        status: ProcessingStatus::Queued,
    };
    let extracted = kernel.extract_content(
        &job,
        "Policy memory replay chain keeps evidence linked. Another sentence adds context. Third sentence verifies stability.",
    );

    let first = kernel.chunk_semantic(&extracted);
    let second = kernel.chunk_semantic(&extracted);

    let first_signature = first
        .iter()
        .map(|chunk| {
            (
                chunk.sequence,
                chunk.text.clone(),
                chunk.start_offset,
                chunk.end_offset,
            )
        })
        .collect::<Vec<_>>();
    let second_signature = second
        .iter()
        .map(|chunk| {
            (
                chunk.sequence,
                chunk.text.clone(),
                chunk.start_offset,
                chunk.end_offset,
            )
        })
        .collect::<Vec<_>>();

    assert_eq!(first_signature, second_signature);
}
