use harvester::fetch::{backoff_delay_ms, classify_status, resolve_item, Attempt, FetchOutcome, SkipReason, StatusClass};
use harvester::item::{FetchedDocument, WorkItem};
use harvester::pipeline::{process_batch, run_pipeline, ItemOutcome, PipelineError};
use harvester::queue::{BoundedQueue, RecvResult, SendResult};
use harvester::repo_path::document_path;
use harvester::store::ArtifactStore;

fn item(id: i32, group: &str, artifact: &str, version: &str) -> WorkItem {
    WorkItem {
        version_id: id,
        group_id: group.to_string(),
        artifact_id: artifact.to_string(),
        version: version.to_string(),
    }
}

fn doc(id: i32, content: &[u8]) -> FetchedDocument {
    FetchedDocument { version_id: id, content: content.to_vec() }
}

fn store_with(n_pending: i32, persisted: &[i32]) -> ArtifactStore {
    let mut s = ArtifactStore::new();
    for id in 1..=n_pending {
        s.versions.push(item(id, "org.example", "lib", &format!("0.{}", id)));
    }
    for &id in persisted {
        s.documents.push(doc(id, b"already"));
    }
    s
}

fn ok200(content: &[u8]) -> Attempt {
    Attempt::Response(200, content.to_vec())
}

#[test]
fn producer_yields_exactly_the_pending_items() {
    // five versions, two already persisted: the read yields the other three
    let s = store_with(5, &[2, 4]);
    let pending = s.pending_items();
    assert_eq!(pending.len(), 3);
    assert_eq!(s.pending_count(), 3);
    let ids: Vec<i32> = pending.iter().map(|w| w.version_id).collect();
    assert_eq!(ids, vec![1, 3, 5]);
    for w in &pending {
        assert!(!s.has_document(w.version_id));
    }
}

#[test]
fn producer_on_empty_store() {
    let s = ArtifactStore::new();
    assert_eq!(s.pending_count(), 0);
    assert!(s.pending_items().is_empty());
}

#[test]
fn url_path_example() {
    let p = document_path("com.example.foo", "bar", "1.0");
    assert_eq!(p, "com/example/foo/bar/1.0/bar-1.0.pom");
}

#[test]
fn url_path_single_segment_group() {
    let p = document_path("junit", "junit", "4.13.2");
    assert_eq!(p, "junit/junit/4.13.2/junit-4.13.2.pom");
}

#[test]
fn url_path_is_deterministic_and_distinguishes_triples() {
    let a = document_path("com.example.foo", "bar", "1.0");
    let b = document_path("com.example.foo", "bar", "1.0");
    assert_eq!(a, b);
    let c = document_path("com.example", "foo-bar", "1.0");
    let d = document_path("com.example.foo", "bar", "2.0");
    assert_ne!(a, c);
    assert_ne!(a, d);
    assert_ne!(c, d);
}

#[test]
fn url_path_encodes_separator_characters() {
    // a slash or percent inside an identifier is percent-encoded, so it can
    // never be mistaken for a segment boundary or an encoding of one
    assert_eq!(document_path("a/b", "x", "1"), "a%2Fb/x/1/x-1.pom");
    assert_eq!(document_path("a.b", "x", "1"), "a/b/x/1/x-1.pom");
    assert_ne!(document_path("a/b", "x", "1"), document_path("a.b", "x", "1"));
    assert_eq!(document_path("g", "a%b", "2"), "g/a%25b/2/a%25b-2.pom");
}

#[test]
fn status_classification() {
    assert_eq!(classify_status(200), StatusClass::Success);
    assert_eq!(classify_status(302), StatusClass::Success);
    assert_eq!(classify_status(399), StatusClass::Success);
    assert_eq!(classify_status(400), StatusClass::Fatal);
    assert_eq!(classify_status(404), StatusClass::NotFound);
    assert_eq!(classify_status(500), StatusClass::Fatal);
    assert_eq!(classify_status(599), StatusClass::Fatal);
    assert_eq!(classify_status(600), StatusClass::Success);
}

#[test]
fn backoff_doubles_per_attempt() {
    assert_eq!(backoff_delay_ms(300, 0), 300);
    assert_eq!(backoff_delay_ms(300, 1), 600);
    assert_eq!(backoff_delay_ms(300, 2), 1200);
    assert_eq!(backoff_delay_ms(0, 7), 0);
}

#[test]
fn backoff_saturates_instead_of_overflowing() {
    assert_eq!(backoff_delay_ms(u64::MAX, 1), u64::MAX);
    assert_eq!(backoff_delay_ms(1, 63), 1u64 << 63);
    assert_eq!(backoff_delay_ms(1, 64), u64::MAX);
}

#[test]
fn retry_two_transient_failures_then_success() {
    // transient errors on the first two attempts, then a success: the item is
    // fetched with exactly three attempts, within the budget of three
    let script = vec![Attempt::Transport, Attempt::Transport, ok200(b"pom!")];
    let (outcome, attempts) = resolve_item(7, script, 3);
    assert_eq!(attempts, 3);
    match outcome {
        FetchOutcome::Fetched(d) => {
            assert_eq!(d.version_id, 7);
            assert_eq!(d.content, b"pom!".to_vec());
        }
        _ => panic!("expected a fetched document"),
    }
}

#[test]
fn retry_gives_up_after_budget() {
    let script = vec![Attempt::Transport, Attempt::Transport, Attempt::Transport];
    let (outcome, attempts) = resolve_item(7, script, 3);
    assert_eq!(attempts, 3);
    assert!(matches!(outcome, FetchOutcome::Skipped(SkipReason::RetriesExhausted)));
}

#[test]
fn retry_stops_at_first_response() {
    let script = vec![ok200(b"x"), Attempt::Transport, Attempt::Transport];
    let (outcome, attempts) = resolve_item(1, script, 3);
    assert_eq!(attempts, 1);
    assert!(matches!(outcome, FetchOutcome::Fetched(_)));
}

#[test]
fn not_found_is_skipped_without_error() {
    // a 404 leaves no persisted row and is no fatal error
    let mut s = store_with(1, &[]);
    let scripts = vec![vec![Attempt::Response(404, Vec::new())]];
    let report = run_pipeline(&mut s, 8, 1, scripts);
    assert!(report.fatal.is_none());
    assert_eq!(report.outcomes, vec![ItemOutcome::Skipped(SkipReason::NotFound)]);
    assert!(!s.has_document(1));
    assert_eq!(s.documents.len(), 0);
}

#[test]
fn unexpected_status_aborts_the_run() {
    // item 3 of 5 answers 500: the run aborts; the first batch of two is
    // flushed, and no batch after the failing one is processed
    let mut s = store_with(5, &[]);
    let scripts = vec![
        vec![ok200(b"a")],
        vec![ok200(b"b")],
        vec![Attempt::Response(500, Vec::new())],
        vec![ok200(b"d")],
        vec![ok200(b"e")],
    ];
    let report = run_pipeline(&mut s, 2, 1, scripts);
    assert_eq!(report.fatal, Some(PipelineError::UnexpectedStatus(500)));
    // only the first complete batch produced outcomes
    assert_eq!(report.outcomes.len(), 2);
    assert_eq!(report.batches_done, 1);
    assert!(s.has_document(1));
    assert!(s.has_document(2));
    // nothing of the failing batch or of later batches was persisted
    assert!(!s.has_document(3));
    assert!(!s.has_document(4));
    assert!(!s.has_document(5));
}

#[test]
fn successful_run_persists_everything() {
    let mut s = store_with(5, &[2]);
    let scripts = vec![
        vec![ok200(b"a")],
        vec![Attempt::Response(404, Vec::new())],
        vec![ok200(b"c")],
        vec![ok200(b"d")],
    ];
    let report = run_pipeline(&mut s, 3, 1, scripts);
    assert!(report.fatal.is_none());
    assert_eq!(report.batches_done, 2);
    assert_eq!(
        report.outcomes,
        vec![
            ItemOutcome::Persisted,
            ItemOutcome::Skipped(SkipReason::NotFound),
            ItemOutcome::Persisted,
            ItemOutcome::Persisted,
        ]
    );
    assert!(s.has_document(1));
    assert!(!s.has_document(3));
    assert!(s.has_document(4));
    assert!(s.has_document(5));
    // 2 was persisted before the run and is untouched
    assert!(s.has_document(2));
    assert_eq!(s.documents.len(), 4);
}

#[test]
fn batch_with_fatal_item_writes_nothing() {
    let mut s = store_with(3, &[]);
    let ids = vec![1, 2, 3];
    let scripts = vec![
        vec![ok200(b"a")],
        vec![Attempt::Response(503, Vec::new())],
        vec![ok200(b"c")],
    ];
    let r = process_batch(&mut s, &ids, scripts, 1);
    match r {
        Err(PipelineError::UnexpectedStatus(code)) => assert_eq!(code, 503),
        _ => panic!("expected the batch to abort"),
    }
    assert_eq!(s.documents.len(), 0);
}

#[test]
fn bulk_failure_falls_back_to_single_rows() {
    // a batch of five with one conflicting row: the bulk write is rejected,
    // exactly five single-row inserts are attempted, and only the conflicting
    // row stays out
    let mut s = ArtifactStore::new();
    s.documents.push(doc(3, b"old"));
    let batch = vec![
        doc(1, b"one"),
        doc(2, b"two"),
        doc(3, b"three"),
        doc(4, b"four"),
        doc(5, b"five"),
    ];
    let report = s.flush_batch(batch);
    assert!(report.bulk_attempted);
    assert!(!report.bulk_ok);
    assert_eq!(report.row_attempts, 5);
    assert_eq!(report.row_results, vec![true, true, false, true, true]);
    for id in [1, 2, 4, 5] {
        assert!(s.has_document(id));
    }
    // the conflicting row kept its earlier content
    assert_eq!(s.documents[0].content, b"old".to_vec());
    assert_eq!(s.documents.len(), 5);
}

#[test]
fn clean_bulk_insert_needs_no_fallback() {
    let mut s = ArtifactStore::new();
    let batch = vec![doc(1, b"one"), doc(2, b"two")];
    let report = s.flush_batch(batch);
    assert!(report.bulk_attempted);
    assert!(report.bulk_ok);
    assert_eq!(report.row_attempts, 0);
    assert!(s.has_document(1));
    assert!(s.has_document(2));
}

#[test]
fn empty_flush_is_a_no_op() {
    let mut s = ArtifactStore::new();
    let report = s.flush_batch(Vec::new());
    assert!(!report.bulk_attempted);
    assert_eq!(report.row_attempts, 0);
    assert_eq!(s.documents.len(), 0);
}

#[test]
fn duplicate_keys_within_a_batch_are_rejected_once() {
    let mut s = ArtifactStore::new();
    let batch = vec![doc(1, b"first"), doc(1, b"second")];
    let report = s.flush_batch(batch);
    assert!(!report.bulk_ok);
    assert_eq!(report.row_attempts, 2);
    assert_eq!(report.row_results, vec![true, false]);
    assert_eq!(s.documents.len(), 1);
    assert_eq!(s.documents[0].content, b"first".to_vec());
}

#[test]
fn queue_backpressure_at_capacity_two() {
    // capacity 2, one slow worker: the third publish is refused until the
    // worker drains a batch
    let mut q = BoundedQueue::new(2);
    let b1 = vec![item(1, "g", "a", "1")];
    let b2 = vec![item(2, "g", "a", "2")];
    let b3 = vec![item(3, "g", "a", "3")];
    assert!(matches!(q.try_send(b1), SendResult::Sent));
    assert!(matches!(q.try_send(b2), SendResult::Sent));
    let held = match q.try_send(b3) {
        SendResult::Full(b) => b,
        _ => panic!("expected backpressure at capacity"),
    };
    assert_eq!(q.len(), 2);
    // the worker drains one batch; the producer resumes
    match q.try_recv() {
        RecvResult::Received(b) => assert_eq!(b[0].version_id, 1),
        _ => panic!("expected the oldest batch"),
    }
    assert!(matches!(q.try_send(held), SendResult::Sent));
    assert_eq!(q.len(), 2);
}

#[test]
fn queue_close_drains_then_ends() {
    let mut q = BoundedQueue::new(2);
    assert!(matches!(q.try_recv(), RecvResult::Empty));
    let b1 = vec![item(1, "g", "a", "1")];
    assert!(matches!(q.try_send(b1), SendResult::Sent));
    q.close();
    let b2 = vec![item(2, "g", "a", "2")];
    assert!(matches!(q.try_send(b2), SendResult::Closed(_)));
    assert!(matches!(q.try_recv(), RecvResult::Received(_)));
    assert!(matches!(q.try_recv(), RecvResult::Closed));
}
