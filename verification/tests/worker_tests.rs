use pikpak::chunk::ChunkRange;
use pikpak::worker::{ChunkWorker, TaskResultState, WorkItem, WorkerStep};

fn item(start: u64, end: u64) -> WorkItem {
    WorkItem {
        task: ChunkRange::new(start, end),
        url: "http://example.invalid/file".to_string(),
    }
}

#[test]
fn test_worker_accumulates_stream() {
    let it = item(0, 9);
    let mut w = ChunkWorker::new(&it);
    assert_eq!(w.on_response(true), WorkerStep::ReadBody);
    assert_eq!(w.on_chunk(&vec![1, 2, 3]), 3);
    assert_eq!(w.on_chunk(&vec![4, 5]), 2);
    assert_eq!(w.on_chunk(&vec![]), 0);
    let r = w.on_stream_end();
    assert_eq!(r.state, TaskResultState::Done);
    assert_eq!(r.data, vec![1, 2, 3, 4, 5]);
    assert_eq!(r.task, ChunkRange::new(0, 9));
}

#[test]
fn test_worker_retries_then_gives_up() {
    // A response without Content-Range retries after a delay, up to
    // five requests in all; then the chunk fails.
    let it = item(0, 1);
    let mut w = ChunkWorker::new(&it);
    for _ in 0..4 {
        assert_eq!(w.on_response(false), WorkerStep::RetryAfterDelay);
    }
    assert_eq!(w.on_response(false), WorkerStep::FailNoValidResponse);
}

#[test]
fn test_worker_recovers_within_attempts() {
    let it = item(2, 3);
    let mut w = ChunkWorker::new(&it);
    assert_eq!(w.on_response(false), WorkerStep::RetryAfterDelay);
    assert_eq!(w.on_response(false), WorkerStep::RetryAfterDelay);
    assert_eq!(w.on_response(true), WorkerStep::ReadBody);
}

#[test]
fn test_worker_cancel_keeps_partial_bytes() {
    let it = item(0, 9);
    let mut w = ChunkWorker::new(&it);
    assert_eq!(w.on_response(true), WorkerStep::ReadBody);
    assert_eq!(w.on_chunk(&vec![7, 8]), 2);
    let r = w.on_cancelled();
    assert_eq!(r.state, TaskResultState::Canceled);
    assert_eq!(r.data, vec![7, 8]);
}

#[test]
fn test_worker_transport_error_is_fatal() {
    let it = item(0, 1);
    let mut w = ChunkWorker::new(&it);
    assert_eq!(w.on_transport_error(), WorkerStep::FailFatal);
}

#[test]
fn test_worker_stream_error_is_fatal() {
    let it = item(0, 1);
    let mut w = ChunkWorker::new(&it);
    assert_eq!(w.on_response(true), WorkerStep::ReadBody);
    assert_eq!(w.on_chunk(&vec![1]), 1);
    assert_eq!(w.on_stream_error(), WorkerStep::FailFatal);
}
