use pikpak::chunk::ChunkRange;
use pikpak::session::{DownloadConfig, DownloadSession};
use pikpak::worker::TaskResultState;

fn conf(total_size: u64, chunk_size: usize, worker_num: usize) -> DownloadConfig {
    DownloadConfig {
        url: "http://example.invalid/file".to_string(),
        download_path: "cache/test".to_string(),
        chunk_size: Some(chunk_size),
        worker_num: Some(worker_num),
        speed_limit_per_sec: None,
        total_size,
    }
}

fn slice_of(source: &[u8], r: &ChunkRange) -> Vec<u8> {
    source[r.start as usize..=(r.end as usize)].to_vec()
}

#[test]
fn test_end_to_end_22_bytes_chunk_2() {
    // Total size 22, chunk size 2, four workers: 11 chunks are
    // dispatched, and the output equals the source byte for byte.
    let source: Vec<u8> = (0u8..22).collect();
    let mut s = DownloadSession::new(&conf(22, 2, 4), 0);
    let mut out: Vec<u8> = Vec::new();
    let mut dispatched = 0usize;
    while !s.is_complete() {
        dispatched += s.fill_queue().len();
        let front = s.front_task().unwrap();
        let data = slice_of(&source, &front);
        let offset = s.apply_result(&data, TaskResultState::Done);
        assert_eq!(offset as usize, out.len());
        out.extend_from_slice(&data);
    }
    assert_eq!(dispatched, 11);
    assert_eq!(out, source);
    assert_eq!(s.downloaded(), 22);
}

#[test]
fn test_writes_ascend_with_shuffled_completion() {
    // Workers finish in a scrambled order, but results are consumed
    // oldest-first, so every write lands exactly at the end of the
    // file written so far.
    let source: Vec<u8> = (0u8..40).map(|b| b.wrapping_mul(7)).collect();
    let mut s = DownloadSession::new(&conf(40, 3, 4), 0);
    let mut out: Vec<u8> = Vec::new();
    let mut finished: Vec<(u64, Vec<u8>)> = Vec::new();
    let mut last_offset: Option<u64> = None;
    while !s.is_complete() {
        let new_tasks = s.fill_queue();
        // Completion order scrambled within the batch.
        let order: Vec<usize> = match new_tasks.len() {
            4 => vec![2, 0, 3, 1],
            n => (0..n).rev().collect(),
        };
        for &i in &order {
            let t = &new_tasks[i];
            finished.push((t.start, slice_of(&source, t)));
        }
        // Consume strictly from the front of the queue.
        while let Some(front) = s.front_task() {
            let pos = finished
                .iter()
                .position(|(start, _)| *start == front.start)
                .expect("front task must have finished");
            let (_, data) = finished.remove(pos);
            let offset = s.apply_result(&data, TaskResultState::Done);
            if let Some(prev) = last_offset {
                assert!(offset > prev);
            }
            last_offset = Some(offset);
            assert_eq!(offset as usize, out.len());
            out.extend_from_slice(&data);
        }
    }
    assert_eq!(out, source);
}

#[test]
fn test_cancel_leaves_prefix_and_resume_continues() {
    // Canceled after two full chunks and one partial byte: the file
    // holds exactly that contiguous prefix, and a fresh session resumes
    // from that very offset without touching what is already written.
    let source: Vec<u8> = (0u8..22).map(|b| b.wrapping_add(100)).collect();
    let mut s = DownloadSession::new(&conf(22, 2, 4), 0);
    let mut out: Vec<u8> = Vec::new();
    s.fill_queue();
    for _ in 0..2 {
        let front = s.front_task().unwrap();
        let data = slice_of(&source, &front);
        let offset = s.apply_result(&data, TaskResultState::Done);
        assert_eq!(offset as usize, out.len());
        out.extend_from_slice(&data);
    }
    // The third chunk is canceled with one of its two bytes received.
    let front = s.front_task().unwrap();
    let partial = vec![source[front.start as usize]];
    let offset = s.apply_result(&partial, TaskResultState::Canceled);
    assert_eq!(offset, 4);
    out.extend_from_slice(&partial);
    assert!(s.is_stopped());
    assert_eq!(s.downloaded(), 5);
    assert_eq!(out, source[..5].to_vec());

    let resume_at = s.downloaded();
    let mut s2 = DownloadSession::new(&conf(22, 2, 4), resume_at);
    while !s2.is_complete() {
        s2.fill_queue();
        let front = s2.front_task().unwrap();
        assert!(front.start >= resume_at);
        let data = slice_of(&source, &front);
        let offset = s2.apply_result(&data, TaskResultState::Done);
        assert_eq!(offset as usize, out.len());
        out.extend_from_slice(&data);
    }
    assert_eq!(out, source);
}

#[test]
fn test_last_chunk_carries_remainder() {
    // Total 23, chunk 5: chunks of 5,5,5,5 and a last chunk of
    // 23 mod 5 = 3 bytes, contiguous with no gap or overlap.
    let mut s = DownloadSession::new(&conf(23, 5, 2), 0);
    let mut all: Vec<ChunkRange> = Vec::new();
    while !s.is_complete() {
        all.extend(s.fill_queue());
        let front = s.front_task().unwrap();
        s.apply_result(&vec![0u8; front.len() as usize], TaskResultState::Done);
    }
    let lens: Vec<u64> = all.iter().map(|r| r.len()).collect();
    assert_eq!(lens, vec![5, 5, 5, 5, 3]);
    assert_eq!(all[0].start, 0);
    for w in all.windows(2) {
        assert_eq!(w[0].end + 1, w[1].start);
    }
    assert_eq!(all.last().unwrap().end, 22);
}

#[test]
fn test_queue_bounded_by_worker_num() {
    let mut s = DownloadSession::new(&conf(100, 1, 3), 0);
    let first = s.fill_queue();
    assert_eq!(first.len(), 3);
    // Refilling without consuming dispatches nothing more.
    assert_eq!(s.fill_queue().len(), 0);
    let front = s.front_task().unwrap();
    s.apply_result(&vec![0u8; front.len() as usize], TaskResultState::Done);
    assert_eq!(s.fill_queue().len(), 1);
}

#[test]
fn test_change_worker_num_and_chunk_size() {
    let mut s = DownloadSession::new(&conf(100, 10, 2), 0);
    // Zero is ignored for both settings.
    s.change_worker_num(0);
    s.change_chunk_size(0);
    assert_eq!(s.fill_queue().len(), 2);
    s.change_worker_num(4);
    s.change_chunk_size(25);
    let more = s.fill_queue();
    assert_eq!(more.len(), 2);
    assert_eq!(more[0].len(), 25);
}

#[test]
fn test_status_snapshot() {
    let mut s = DownloadSession::new(&conf(10, 2, 1), 0);
    s.fill_queue();
    let front = s.front_task().unwrap();
    s.apply_result(&vec![0u8; front.len() as usize], TaskResultState::Done);
    let st = s.status();
    assert_eq!(st.total, 10);
    assert_eq!(st.downloaded, 2);
}

#[test]
fn test_defaults_applied() {
    let c = DownloadConfig {
        url: String::new(),
        download_path: String::new(),
        chunk_size: None,
        worker_num: None,
        speed_limit_per_sec: None,
        total_size: 3 * 2 * 1024 * 1024,
    };
    let mut s = DownloadSession::new(&c, 0);
    // Default worker count 8, default chunk size 2 MiB: three chunks
    // fit, so only three are dispatched.
    let tasks = s.fill_queue();
    assert_eq!(tasks.len(), 3);
    assert_eq!(tasks[0].len(), 2 * 1024 * 1024);
}
