//! One file's transfer: chunk dispatch, strictly ordered result
//! consumption, and the bookkeeping that makes append-only writes safe.
//!
//! The session dispatches chunk ranges at a monotonically advancing cursor,
//! keeps the in-flight ranges in a first-in-first-out queue bounded by the
//! worker count, and applies results oldest-first, so the bytes reach the
//! disk in ascending offset order no matter in which order the fetches
//! finish.  The surrounding process performs the fetches and the writes;
//! it asks the session what to dispatch and tells it what each fetch
//! returned.

use vstd::prelude::*;

use crate::chunk::ChunkRange;
use crate::worker::TaskResultState;

verus! {

/// Configuration of one transfer, as handed to the engine.
///
/// `None` (or, for the limit, zero) picks the default: eight workers,
/// two-mebibyte chunks, unlimited speed.
pub struct DownloadConfig {
    pub url: String,
    pub download_path: String,
    pub chunk_size: Option<usize>,
    pub worker_num: Option<usize>,
    pub speed_limit_per_sec: Option<usize>,
    pub total_size: u64,
}

/// Progress snapshot of one session.
#[derive(Debug, Copy, Clone, PartialEq, Eq, Structural)]
pub struct Status {
    pub total: u64,
    pub downloaded: u64,
    pub current_speed: u64,
    pub downloaded_time_ms: u64,
    pub average_speed: u64,
}

/// One disk write performed by a session: the bytes that landed at
/// byte `offset` (kept in the session's ghost history).
pub struct WriteRec {
    pub offset: u64,
    pub data: Seq<u8>,
}

/// The ranges are well-formed and sit side by side: the first starts at
/// `start`, and each next one begins right after the previous one ends.
pub open spec fn contiguous_from(rs: Seq<ChunkRange>, start: int) -> bool
    decreases rs.len(),
{
    rs.len() == 0 || {
        &&& rs[0].wf()
        &&& rs[0].start == start
        &&& contiguous_from(rs.drop_first(), rs[0].end + 1)
    }
}

/// One past the last byte covered by a contiguous run of ranges that
/// starts at `start`.
pub open spec fn ranges_end(rs: Seq<ChunkRange>, start: int) -> int
    decreases rs.len(),
{
    if rs.len() == 0 {
        start
    } else {
        ranges_end(rs.drop_first(), rs[0].end + 1)
    }
}

/// The writes are contiguous: the first lands at `start`, and each next
/// one begins where the previous one ended.  Every write moves at least
/// one byte.
pub open spec fn writes_contiguous_from(ws: Seq<WriteRec>, start: int) -> bool
    decreases ws.len(),
{
    ws.len() == 0 || {
        &&& ws[0].offset == start
        &&& 1 <= ws[0].data.len()
        &&& ws[0].offset + ws[0].data.len() <= u64::MAX
        &&& writes_contiguous_from(ws.drop_first(), ws[0].offset + ws[0].data.len())
    }
}

/// One past the last byte covered by a contiguous run of writes.
pub open spec fn writes_end(ws: Seq<WriteRec>, start: int) -> int
    decreases ws.len(),
{
    if ws.len() == 0 {
        start
    } else {
        writes_end(ws.drop_first(), ws[0].offset + ws[0].data.len())
    }
}

/// Drives one file's full transfer.
pub struct DownloadSession {
    total_size: u64,
    chunk_size: u64,
    worker_num: u64,
    /// Offset of the next disk write; starts at the resume offset.
    written: u64,
    /// Offset of the next chunk to dispatch.
    cursor: u64,
    /// In-flight ranges, oldest first; they cover `[written, cursor)`.
    queue: Vec<ChunkRange>,
    /// Set when a canceled result was applied; no further dispatch.
    stopped: bool,
    /// Where this run began (ghost; kept for the contracts).
    resume_offset: Ghost<u64>,
    /// Every range ever dispatched by this session, in dispatch order.
    dispatched: Ghost<Seq<ChunkRange>>,
    /// Every disk write this session ordered, in order.
    applied: Ghost<Seq<WriteRec>>,
}

impl DownloadSession {
    pub closed spec fn spec_total_size(self) -> u64 {
        self.total_size
    }

    pub closed spec fn spec_chunk_size(self) -> u64 {
        self.chunk_size
    }

    pub closed spec fn spec_worker_num(self) -> u64 {
        self.worker_num
    }

    pub closed spec fn spec_written(self) -> u64 {
        self.written
    }

    pub closed spec fn spec_cursor(self) -> u64 {
        self.cursor
    }

    pub closed spec fn spec_queue(self) -> Seq<ChunkRange> {
        self.queue@
    }

    pub closed spec fn spec_stopped(self) -> bool {
        self.stopped
    }

    pub closed spec fn spec_resume_offset(self) -> u64 {
        self.resume_offset@
    }

    pub closed spec fn spec_dispatched(self) -> Seq<ChunkRange> {
        self.dispatched@
    }

    pub closed spec fn spec_applied(self) -> Seq<WriteRec> {
        self.applied@
    }

    /// The session's internal invariant.
    pub closed spec fn wf(self) -> bool {
        &&& 1 <= self.chunk_size
        &&& 1 <= self.worker_num
        &&& self.resume_offset@ <= self.written <= self.cursor <= self.total_size
        &&& contiguous_from(self.queue@, self.written as int)
        &&& ranges_end(self.queue@, self.written as int) == self.cursor
        &&& contiguous_from(self.dispatched@, self.resume_offset@ as int)
        &&& (!self.stopped ==> ranges_end(
            self.dispatched@,
            self.resume_offset@ as int,
        ) == self.cursor)
        &&& (!self.stopped ==> self.queue@ =~= self.dispatched@.skip(
            self.dispatched@.len() - self.queue@.len(),
        ))
        &&& self.queue@.len() <= self.dispatched@.len()
        &&& writes_contiguous_from(self.applied@, self.resume_offset@ as int)
        &&& writes_end(self.applied@, self.resume_offset@ as int) == self.written
        &&& (self.stopped ==> self.queue@.len() == 0)
    }

    /// The transfer covered everything it set out to cover.
    pub closed spec fn run_complete(self) -> bool {
        &&& !self.stopped
        &&& self.cursor == self.total_size
        &&& self.queue@.len() == 0
    }

    /// Starts a session.  `resume_offset` is how many bytes of the file
    /// are already on disk from an earlier run.
    pub fn new(conf: &DownloadConfig, resume_offset: u64) -> (s: Self)
        requires
            resume_offset <= conf.total_size,
            conf.chunk_size matches Some(c) ==> 1 <= c,
            conf.worker_num matches Some(w) ==> 1 <= w,
        ensures
            s.wf(),
            s.spec_total_size() == conf.total_size,
            s.spec_written() == resume_offset,
            s.spec_cursor() == resume_offset,
            s.spec_resume_offset() == resume_offset,
            s.spec_queue().len() == 0,
            s.spec_dispatched().len() == 0,
            s.spec_applied().len() == 0,
            !s.spec_stopped(),
            s.spec_chunk_size() == match conf.chunk_size {
                Some(c) => c as u64,
                None => (2 * 1024 * 1024) as u64,
            },
            s.spec_worker_num() == match conf.worker_num {
                Some(w) => w as u64,
                None => 8u64,
            },
    {
        let chunk_size: u64 = match conf.chunk_size {
            Some(c) => c as u64,
            None => 2 * 1024 * 1024,
        };
        let worker_num: u64 = match conf.worker_num {
            Some(w) => w as u64,
            None => 8,
        };
        DownloadSession {
            total_size: conf.total_size,
            chunk_size,
            worker_num,
            written: resume_offset,
            cursor: resume_offset,
            queue: Vec::new(),
            stopped: false,
            resume_offset: Ghost(resume_offset),
            dispatched: Ghost(Seq::empty()),
            applied: Ghost(Seq::empty()),
        }
    }

    pub fn total_size(&self) -> (n: u64)
        ensures
            n == self.spec_total_size(),
    {
        self.total_size
    }

    /// Bytes written so far (the resume offset for a later run).
    pub fn downloaded(&self) -> (n: u64)
        ensures
            n == self.spec_written(),
    {
        self.written
    }

    pub fn is_stopped(&self) -> (b: bool)
        ensures
            b == self.spec_stopped(),
    {
        self.stopped
    }

    /// Whether the whole remaining size was dispatched and consumed.
    pub fn is_complete(&self) -> (b: bool)
        ensures
            b == self.run_complete(),
    {
        !self.stopped && self.cursor == self.total_size && self.queue.len() == 0
    }

    /// Progress snapshot.  The speed fields are maintained by the driver
    /// around the session, not here, so they read as zero.
    pub fn status(&self) -> (st: Status)
        ensures
            st.total == self.spec_total_size(),
            st.downloaded == self.spec_written(),
            st.current_speed == 0 && st.average_speed == 0 && st.downloaded_time_ms == 0,
    {
        Status {
            total: self.total_size,
            downloaded: self.written,
            current_speed: 0,
            downloaded_time_ms: 0,
            average_speed: 0,
        }
    }

    /// Changes the worker bound for future refills.  Zero is ignored.
    pub fn change_worker_num(&mut self, worker_num: u64)
        requires
            old(self).wf(),
        ensures
            final(self).wf(),
            worker_num == 0 ==> *final(self) == *old(self),
            worker_num != 0 ==> final(self).spec_worker_num() == worker_num,
            final(self).spec_total_size() == old(self).spec_total_size(),
            final(self).spec_chunk_size() == old(self).spec_chunk_size(),
            final(self).spec_written() == old(self).spec_written(),
            final(self).spec_cursor() == old(self).spec_cursor(),
            final(self).spec_queue() == old(self).spec_queue(),
            final(self).spec_stopped() == old(self).spec_stopped(),
            final(self).spec_resume_offset() == old(self).spec_resume_offset(),
            final(self).spec_dispatched() == old(self).spec_dispatched(),
            final(self).spec_applied() == old(self).spec_applied(),
    {
        if worker_num == 0 {
            return ;
        }
        self.worker_num = worker_num;
    }

    /// Changes the chunk size for future dispatches.  Zero is ignored.
    pub fn change_chunk_size(&mut self, chunk_size: u64)
        requires
            old(self).wf(),
        ensures
            final(self).wf(),
            chunk_size == 0 ==> *final(self) == *old(self),
            chunk_size != 0 ==> final(self).spec_chunk_size() == chunk_size,
            final(self).spec_total_size() == old(self).spec_total_size(),
            final(self).spec_worker_num() == old(self).spec_worker_num(),
            final(self).spec_written() == old(self).spec_written(),
            final(self).spec_cursor() == old(self).spec_cursor(),
            final(self).spec_queue() == old(self).spec_queue(),
            final(self).spec_stopped() == old(self).spec_stopped(),
            final(self).spec_resume_offset() == old(self).spec_resume_offset(),
            final(self).spec_dispatched() == old(self).spec_dispatched(),
            final(self).spec_applied() == old(self).spec_applied(),
    {
        if chunk_size == 0 {
            return ;
        }
        self.chunk_size = chunk_size;
    }

    /// The oldest in-flight range: the one whose result must be applied
    /// next.
    pub fn front_task(&self) -> (r: Option<ChunkRange>)
        ensures
            r == if self.spec_queue().len() == 0 {
                None::<ChunkRange>
            } else {
                Some(self.spec_queue()[0])
            },
    {
        if self.queue.len() == 0 {
            None
        } else {
            Some(self.queue[0])
        }
    }

    /// Refills the in-flight queue up to the worker bound, dispatching new
    /// ranges at the cursor, each clamped so it never reaches past the
    /// total size.  Returns the newly dispatched ranges, oldest first.
    pub fn fill_queue(&mut self) -> (new_tasks: Vec<ChunkRange>)
        requires
            old(self).wf(),
            !old(self).spec_stopped(),
        ensures
            final(self).wf(),
            !final(self).spec_stopped(),
            final(self).spec_total_size() == old(self).spec_total_size(),
            final(self).spec_chunk_size() == old(self).spec_chunk_size(),
            final(self).spec_worker_num() == old(self).spec_worker_num(),
            final(self).spec_written() == old(self).spec_written(),
            final(self).spec_resume_offset() == old(self).spec_resume_offset(),
            final(self).spec_applied() == old(self).spec_applied(),
            final(self).spec_queue() == old(self).spec_queue() + new_tasks@,
            final(self).spec_dispatched() == old(self).spec_dispatched() + new_tasks@,
            forall|i: int|
                0 <= i < new_tasks@.len() ==> #[trigger] new_tasks@[i].spec_len()
                    == vstd::math::min(
                    final(self).spec_chunk_size() as int,
                    final(self).spec_total_size() - new_tasks@[i].start,
                ),
            old(self).spec_queue().len() >= old(self).spec_worker_num() ==> new_tasks@.len() == 0,
            final(self).spec_queue().len() <= vstd::math::max(
                old(self).spec_queue().len() as int,
                old(self).spec_worker_num() as int,
            ),
            final(self).spec_queue().len() >= old(self).spec_worker_num() || final(self).spec_cursor()
                == final(self).spec_total_size(),
            old(self).spec_queue().len() < old(self).spec_worker_num() && old(self).spec_cursor()
                < old(self).spec_total_size() ==> new_tasks@.len() > 0,
    {
        let mut new_tasks: Vec<ChunkRange> = Vec::new();
        while (self.queue.len() as u64) < self.worker_num && self.cursor < self.total_size
            invariant
                self.wf(),
                !self.stopped,
                self.total_size == old(self).total_size,
                self.chunk_size == old(self).chunk_size,
                self.worker_num == old(self).worker_num,
                self.written == old(self).written,
                self.resume_offset == old(self).resume_offset,
                self.applied == old(self).applied,
                self.queue@ == old(self).queue@ + new_tasks@,
                self.queue@.len() <= vstd::math::max(
                    old(self).queue@.len() as int,
                    old(self).worker_num as int,
                ),
                self.dispatched@ == old(self).dispatched@ + new_tasks@,
                forall|i: int|
                    0 <= i < new_tasks@.len() ==> #[trigger] new_tasks@[i].spec_len()
                        == vstd::math::min(
                        self.chunk_size as int,
                        self.total_size - new_tasks@[i].start,
                    ),
                new_tasks@.len() > 0 ==> old(self).queue@.len() < old(self).worker_num,
            decreases self.total_size - self.cursor,
        {
            let remaining = self.total_size - self.cursor;
            let len = if self.chunk_size < remaining {
                self.chunk_size
            } else {
                remaining
            };
            let task = ChunkRange::from_len(self.cursor, len);
            proof {
                lemma_contiguous_push(self.queue@, self.written as int, task);
                lemma_contiguous_push(self.dispatched@, self.resume_offset@ as int, task);
            }
            self.queue.push(task);
            self.dispatched = Ghost(self.dispatched@.push(task));
            self.cursor = self.cursor + len;
            new_tasks.push(task);
            proof {
                assert(self.queue@ =~= old(self).queue@ + new_tasks@);
                assert(self.dispatched@ =~= old(self).dispatched@ + new_tasks@);
                assert(self.queue@ =~= self.dispatched@.skip(
                    self.dispatched@.len() - self.queue@.len(),
                ));
            }
        }
        new_tasks
    }

    /// Applies the oldest in-flight task's result: the received bytes
    /// are being appended to the file at the returned offset.  A `Done`
    /// result carries the full range; a `Canceled` one carries whatever
    /// prefix arrived before the cancellation, and stops the session:
    /// nothing further is dispatched, and what is on disk is a
    /// contiguous prefix.
    pub fn apply_result(&mut self, data: &Vec<u8>, state: TaskResultState) -> (offset: u64)
        requires
            old(self).wf(),
            !old(self).spec_stopped(),
            old(self).spec_queue().len() > 0,
            state is Done ==> data@.len() == old(self).spec_queue()[0].spec_len(),
            state is Canceled ==> data@.len() <= old(self).spec_queue()[0].spec_len(),
        ensures
            final(self).wf(),
            offset == old(self).spec_written(),
            final(self).spec_written() == old(self).spec_written() + data@.len(),
            final(self).spec_total_size() == old(self).spec_total_size(),
            final(self).spec_chunk_size() == old(self).spec_chunk_size(),
            final(self).spec_worker_num() == old(self).spec_worker_num(),
            final(self).spec_resume_offset() == old(self).spec_resume_offset(),
            final(self).spec_dispatched() == old(self).spec_dispatched(),
            final(self).spec_stopped() == (state is Canceled),
            state is Done ==> final(self).spec_queue() == old(self).spec_queue().drop_first(),
            state is Canceled ==> final(self).spec_queue().len() == 0 && final(self).spec_cursor()
                == final(self).spec_written(),
            state is Done ==> final(self).spec_cursor() == old(self).spec_cursor(),
            data@.len() > 0 ==> final(self).spec_applied() == old(self).spec_applied().push(
                WriteRec { offset: old(self).spec_written(), data: data@ },
            ),
            data@.len() == 0 ==> final(self).spec_applied() == old(self).spec_applied(),
    {
        proof {
            lemma_ranges_end_lower(self.queue@, self.written as int);
        }
        let offset = self.written;
        let _ = self.queue.remove(0);
        proof {
            assert(self.queue@ =~= old(self).queue@.drop_first());
        }
        self.written = self.written + data.len() as u64;
        if data.len() > 0 {
            proof {
                lemma_writes_push(
                    self.applied@,
                    self.resume_offset@ as int,
                    WriteRec { offset, data: data@ },
                );
            }
            self.applied = Ghost(
                self.applied@.push(WriteRec { offset, data: data@ }),
            );
        }
        match state {
            TaskResultState::Done => {
                proof {
                    if self.queue@.len() > 0 {
                        assert(self.queue@ =~= self.dispatched@.skip(
                            self.dispatched@.len() - self.queue@.len(),
                        ));
                    } else {
                        assert(self.queue@ =~= self.dispatched@.skip(
                            self.dispatched@.len() as int,
                        ));
                    }
                }
            },
            TaskResultState::Canceled => {
                self.queue = Vec::new();
                self.stopped = true;
                self.cursor = self.written;
            },
        }
        offset
    }
}

/// A contiguous run never ends before any point inside its first range.
pub proof fn lemma_ranges_end_lower(rs: Seq<ChunkRange>, start: int)
    requires
        contiguous_from(rs, start),
    ensures
        ranges_end(rs, start) >= start,
        rs.len() > 0 ==> ranges_end(rs, start) >= rs[0].end + 1,
    decreases rs.len(),
{
    if rs.len() == 0 {
    } else {
        lemma_ranges_end_lower(rs.drop_first(), rs[0].end + 1);
    }
}

/// Appending a range that starts right at the run's end keeps the run
/// contiguous and moves its end past the new range.
pub proof fn lemma_contiguous_push(rs: Seq<ChunkRange>, start: int, r: ChunkRange)
    requires
        contiguous_from(rs, start),
        r.wf(),
        r.start == ranges_end(rs, start),
    ensures
        contiguous_from(rs.push(r), start),
        ranges_end(rs.push(r), start) == r.end + 1,
    decreases rs.len(),
{
    if rs.len() == 0 {
        assert(rs.push(r).drop_first() =~= Seq::<ChunkRange>::empty());
        assert(contiguous_from(Seq::<ChunkRange>::empty(), r.end + 1));
        assert(ranges_end(Seq::<ChunkRange>::empty(), r.end + 1) == r.end + 1);
    } else {
        lemma_contiguous_push(rs.drop_first(), rs[0].end + 1, r);
        assert(rs.push(r).drop_first() =~= rs.drop_first().push(r));
    }
}

/// Same fact for disk writes.
pub proof fn lemma_writes_push(ws: Seq<WriteRec>, start: int, w: WriteRec)
    requires
        writes_contiguous_from(ws, start),
        1 <= w.data.len(),
        w.offset + w.data.len() <= u64::MAX,
        w.offset == writes_end(ws, start),
    ensures
        writes_contiguous_from(ws.push(w), start),
        writes_end(ws.push(w), start) == w.offset + w.data.len(),
    decreases ws.len(),
{
    if ws.len() == 0 {
        assert(ws.push(w).drop_first() =~= Seq::<WriteRec>::empty());
        assert(writes_contiguous_from(Seq::<WriteRec>::empty(), w.offset + w.data.len()));
        assert(writes_end(Seq::<WriteRec>::empty(), w.offset + w.data.len()) == w.offset
            + w.data.len());
    } else {
        lemma_writes_push(ws.drop_first(), ws[0].offset + ws[0].data.len(), w);
        assert(ws.push(w).drop_first() =~= ws.drop_first().push(w));
    }
}


/// Some range of the run holds byte `b`.
pub open spec fn covered_by(rs: Seq<ChunkRange>, b: int) -> bool {
    exists|i: int| 0 <= i < rs.len() && (#[trigger] rs[i]).start <= b && b <= rs[i].end
}

/// Every byte from `start` up to the run's end lies in exactly one range
/// of a contiguous run: the ranges are ordered, pairwise disjoint, and
/// leave no gap.
pub proof fn lemma_contiguous_covers(rs: Seq<ChunkRange>, start: int)
    requires
        contiguous_from(rs, start),
    ensures
        forall|i: int|
            0 <= i < rs.len() ==> start <= (#[trigger] rs[i]).start && rs[i].start <= rs[i].end
                && rs[i].end < ranges_end(rs, start),
        forall|i: int, j: int|
            0 <= i < j < rs.len() ==> (#[trigger] rs[i]).end < (#[trigger] rs[j]).start,
        forall|b: int| start <= b < ranges_end(rs, start) ==> #[trigger] covered_by(rs, b),
    decreases rs.len(),
{
    if rs.len() > 0 {
        let rest = rs.drop_first();
        let mid = rs[0].end + 1;
        lemma_contiguous_covers(rest, mid);
        lemma_ranges_end_lower(rest, mid);
        assert(forall|k: int| 0 <= k < rest.len() ==> rest[k] == rs[k + 1]);
        assert(ranges_end(rs, start) == ranges_end(rest, mid));
        assert forall|i: int|
            0 <= i < rs.len() implies start <= (#[trigger] rs[i]).start && rs[i].start <= rs[i].end
            && rs[i].end < ranges_end(rs, start) by {
            if i > 0 {
                assert(rest[i - 1] == rs[i]);
                assert(mid <= rest[i - 1].start);
            }
        }
        assert forall|i: int, j: int|
            0 <= i < j < rs.len() implies (#[trigger] rs[i]).end < (#[trigger] rs[j]).start by {
            assert(rest[j - 1] == rs[j]);
            assert(mid <= rest[j - 1].start);
            if i > 0 {
                assert(rest[i - 1] == rs[i]);
                assert(rest[i - 1].end < rest[j - 1].start);
            }
        }
        assert forall|b: int| start <= b < ranges_end(rs, start) implies #[trigger] covered_by(
            rs,
            b,
        ) by {
            if b <= rs[0].end {
                assert(0 <= 0 < rs.len() && rs[0].start <= b && b <= rs[0].end);
            } else {
                assert(covered_by(rest, b));
                let k = choose|k: int|
                    0 <= k < rest.len() && (#[trigger] rest[k]).start <= b && b <= rest[k].end;
                assert(0 <= k + 1 < rs.len() && rs[k + 1].start <= b && b <= rs[k + 1].end);
            }
        }
    }
}

/// How the engine cuts a span into chunks: ranges of `c` bytes from
/// `offset`, the final one clamped at `total`.
pub open spec fn chunk_plan(offset: u64, total: u64, c: u64) -> Seq<ChunkRange>
    recommends
        offset <= total,
        1 <= c,
    decreases total - offset,
{
    if offset >= total || c < 1 {
        Seq::empty()
    } else {
        let len = vstd::math::min(c as int, total - offset);
        seq![ChunkRange { start: offset, end: (offset + len - 1) as u64 }] + chunk_plan(
            (offset + len) as u64,
            total,
            c,
        )
    }
}

/// The chunk layout law.  Cutting `[offset, total)` at chunk size `c`
/// yields a contiguous, gap-free, overlap-free cover of exactly that
/// span, with one chunk per started `c` bytes; every chunk holds `c`
/// bytes except the last, which holds the division remainder when there
/// is one.
pub proof fn lemma_chunk_plan_facts(offset: u64, total: u64, c: u64)
    requires
        offset < total,
        1 <= c,
    ensures
        contiguous_from(chunk_plan(offset, total, c), offset as int),
        ranges_end(chunk_plan(offset, total, c), offset as int) == total,
        chunk_plan(offset, total, c).len() == ((total - offset) + c - 1) / (c as int),
        forall|i: int|
            0 <= i < chunk_plan(offset, total, c).len() - 1 ==> (#[trigger] chunk_plan(
                offset,
                total,
                c,
            )[i]).spec_len() == c,
        (total - offset) % (c as int) != 0 ==> chunk_plan(offset, total, c).last().spec_len() == (
        total - offset) % (c as int),
        (total - offset) % (c as int) == 0 ==> chunk_plan(offset, total, c).last().spec_len() == c,
    decreases total - offset,
{
    let plan = chunk_plan(offset, total, c);
    let len = vstd::math::min(c as int, total - offset);
    let head = ChunkRange { start: offset, end: (offset + len - 1) as u64 };
    let next = (offset + len) as u64;
    assert(plan == seq![head] + chunk_plan(next, total, c));
    if next >= total {
        // one final chunk
        assert(chunk_plan(next, total, c) =~= Seq::<ChunkRange>::empty());
        assert(plan.drop_first() =~= Seq::<ChunkRange>::empty());
        assert(contiguous_from(Seq::<ChunkRange>::empty(), head.end + 1));
        assert(ranges_end(Seq::<ChunkRange>::empty(), head.end + 1) == total);
        assert(plan.len() == 1);
        assert(((total - offset) + c - 1) / (c as int) == 1) by (nonlinear_arith)
            requires
                1 <= total - offset <= c,
        ;
        if len == c {
            assert((total - offset) % (c as int) == 0) by (nonlinear_arith)
                requires
                    total - offset == c,
                    1 <= c,
            ;
        } else {
            assert((total - offset) % (c as int) == total - offset) by (nonlinear_arith)
                requires
                    1 <= total - offset < c,
            ;
        }
    } else {
        lemma_chunk_plan_facts(next, total, c);
        let rest = chunk_plan(next, total, c);
        assert(plan.drop_first() =~= rest);
        assert(contiguous_from(plan, offset as int));
        assert(ranges_end(plan, offset as int) == ranges_end(rest, next as int));
        assert(((total - offset) + c - 1) / (c as int) == 1 + ((total - next) + c - 1) / (
        c as int)) by (nonlinear_arith)
            requires
                1 <= c,
                next == offset + c,
                offset + c < total,
        ;
        assert((total - offset) % (c as int) == (total - next) % (c as int)) by (nonlinear_arith)
            requires
                1 <= c,
                next == offset + c,
        ;
        assert(plan.last() == rest.last());
        assert(forall|i: int| 0 <= i < rest.len() ==> rest[i] == plan[i + 1]);
        assert forall|i: int| 0 <= i < plan.len() - 1 implies (#[trigger] plan[i]).spec_len()
            == c by {
            if i > 0 {
                assert(plan[i] == rest[i - 1]);
            }
        }
    }
}

/// A span of clamped, contiguous dispatches is exactly the chunk plan:
/// there is only one way to cut a span at a fixed chunk size.
pub proof fn lemma_clamped_dispatch_is_plan(rs: Seq<ChunkRange>, offset: u64, total: u64, c: u64)
    requires
        1 <= c,
        offset <= total,
        contiguous_from(rs, offset as int),
        ranges_end(rs, offset as int) == total,
        forall|i: int|
            0 <= i < rs.len() ==> (#[trigger] rs[i]).spec_len() == vstd::math::min(
                c as int,
                total - rs[i].start,
            ),
    ensures
        rs =~= chunk_plan(offset, total, c),
    decreases rs.len(),
{
    if rs.len() == 0 {
        assert(chunk_plan(offset, total, c) =~= Seq::<ChunkRange>::empty());
    } else {
        let len = vstd::math::min(c as int, total - offset);
        let rest = rs.drop_first();
        let next = (offset + len) as u64;
        lemma_ranges_end_lower(rest, rs[0].end + 1);
        assert(rs[0].spec_len() == len);
        assert(rs[0].end + 1 == next);
        assert(forall|i: int| 0 <= i < rest.len() ==> rest[i] == rs[i + 1]);
        lemma_clamped_dispatch_is_plan(rest, next, total, c);
        assert(chunk_plan(offset, total, c) == seq![
            ChunkRange { start: offset, end: (offset + len - 1) as u64 },
        ] + chunk_plan(next, total, c));
        assert(rs[0] == (ChunkRange { start: offset, end: (offset + len - 1) as u64 }));
    }
}

/// The writes of a contiguous run land in strictly ascending offset
/// order, each beginning exactly where the one before it ended.
pub proof fn lemma_writes_ascending(ws: Seq<WriteRec>, start: int)
    requires
        writes_contiguous_from(ws, start),
    ensures
        forall|i: int|
            0 <= i < ws.len() ==> start <= (#[trigger] ws[i]).offset && ws[i].offset + ws[i].data.len()
                <= writes_end(ws, start),
        forall|i: int, j: int|
            0 <= i < j < ws.len() ==> (#[trigger] ws[i]).offset + ws[i].data.len() <= (
            #[trigger] ws[j]).offset,
        forall|i: int, j: int|
            0 <= i < j < ws.len() ==> (#[trigger] ws[i]).offset < (#[trigger] ws[j]).offset,
    decreases ws.len(),
{
    if ws.len() > 0 {
        let rest = ws.drop_first();
        let mid = ws[0].offset + ws[0].data.len();
        lemma_writes_ascending(rest, mid);
        assert(forall|k: int| 0 <= k < rest.len() ==> rest[k] == ws[k + 1]);
        assert(writes_end(ws, start) == writes_end(rest, mid));
        assert forall|i: int|
            0 <= i < ws.len() implies start <= (#[trigger] ws[i]).offset && ws[i].offset
            + ws[i].data.len() <= writes_end(ws, start) by {
            if i > 0 {
                assert(rest[i - 1] == ws[i]);
                assert(mid <= rest[i - 1].offset);
            }
        }
        assert forall|i: int, j: int|
            0 <= i < j < ws.len() implies (#[trigger] ws[i]).offset + ws[i].data.len() <= (
        #[trigger] ws[j]).offset && ws[i].offset < ws[j].offset by {
            assert(rest[j - 1] == ws[j]);
            assert(mid <= rest[j - 1].offset);
            if i > 0 {
                assert(rest[i - 1] == ws[i]);
                assert(rest[i - 1].offset + rest[i - 1].data.len() <= rest[j - 1].offset);
            }
        }
    }
}

/// What the session's invariant guarantees at any moment: the
/// in-flight queue is contiguous from the write position up to the
/// dispatch cursor, the history of dispatches is contiguous from the
/// resume offset, and the disk writes so far are contiguous from the
/// resume offset up to the write position.
pub proof fn lemma_session_invariant(s: DownloadSession)
    requires
        s.wf(),
    ensures
        s.spec_resume_offset() <= s.spec_written() <= s.spec_cursor() <= s.spec_total_size(),
        contiguous_from(s.spec_queue(), s.spec_written() as int),
        ranges_end(s.spec_queue(), s.spec_written() as int) == s.spec_cursor(),
        contiguous_from(s.spec_dispatched(), s.spec_resume_offset() as int),
        !s.spec_stopped() ==> ranges_end(s.spec_dispatched(), s.spec_resume_offset() as int)
            == s.spec_cursor(),
        writes_contiguous_from(s.spec_applied(), s.spec_resume_offset() as int),
        writes_end(s.spec_applied(), s.spec_resume_offset() as int) == s.spec_written(),
        s.spec_stopped() ==> s.spec_queue().len() == 0,
{
}

/// Ordered-writes law for a session: whatever order the fetches finished
/// in, the disk writes the session ordered are contiguous from the
/// resume offset up to its current write position, and strictly
/// ascending.
pub proof fn lemma_session_writes_ordered(s: DownloadSession)
    requires
        s.wf(),
    ensures
        writes_contiguous_from(s.spec_applied(), s.spec_resume_offset() as int),
        writes_end(s.spec_applied(), s.spec_resume_offset() as int) == s.spec_written(),
        forall|i: int, j: int|
            0 <= i < j < s.spec_applied().len() ==> (#[trigger] s.spec_applied()[i]).offset
                + s.spec_applied()[i].data.len() <= (#[trigger] s.spec_applied()[j]).offset,
{
    lemma_writes_ascending(s.spec_applied(), s.spec_resume_offset() as int);
}

/// Coverage law for a full dispatch: once the cursor has reached the
/// total size, the dispatched ranges cover every byte from the resume
/// offset to the last byte of the file, with no gap and no overlap.
pub proof fn lemma_session_dispatch_covers(s: DownloadSession)
    requires
        s.wf(),
        !s.spec_stopped(),
        s.spec_cursor() == s.spec_total_size(),
    ensures
        contiguous_from(s.spec_dispatched(), s.spec_resume_offset() as int),
        ranges_end(s.spec_dispatched(), s.spec_resume_offset() as int) == s.spec_total_size(),
        forall|i: int, j: int|
            0 <= i < j < s.spec_dispatched().len() ==> (#[trigger] s.spec_dispatched()[i]).end < (
            #[trigger] s.spec_dispatched()[j]).start,
        forall|b: int|
            s.spec_resume_offset() <= b < s.spec_total_size() ==> #[trigger] covered_by(
                s.spec_dispatched(),
                b,
            ),
{
    lemma_contiguous_covers(s.spec_dispatched(), s.spec_resume_offset() as int);
}

/// Cancellation-and-resume law.  A canceled run leaves on disk exactly a
/// contiguous prefix, from its resume offset up to its write position;
/// a fresh session that resumes at that exact position and dispatches to
/// the end covers precisely the remaining bytes — nothing written is
/// fetched again, and no byte in between is missed.
pub proof fn lemma_cancel_resume(s1: DownloadSession, s2: DownloadSession)
    requires
        s1.wf(),
        s2.wf(),
        !s2.spec_stopped(),
        s2.spec_resume_offset() == s1.spec_written(),
        s2.spec_total_size() == s1.spec_total_size(),
        s2.spec_cursor() == s2.spec_total_size(),
    ensures
        writes_contiguous_from(s1.spec_applied(), s1.spec_resume_offset() as int),
        writes_end(s1.spec_applied(), s1.spec_resume_offset() as int) == s1.spec_written(),
        contiguous_from(s2.spec_dispatched(), s1.spec_written() as int),
        ranges_end(s2.spec_dispatched(), s1.spec_written() as int) == s1.spec_total_size(),
        forall|i: int, j: int|
            0 <= i < s1.spec_applied().len() && 0 <= j < s2.spec_dispatched().len() ==> (
            #[trigger] s1.spec_applied()[i]).offset + s1.spec_applied()[i].data.len() <= (
            #[trigger] s2.spec_dispatched()[j]).start,
{
    lemma_session_writes_ordered(s1);
    lemma_writes_ascending(s1.spec_applied(), s1.spec_resume_offset() as int);
    lemma_session_dispatch_covers(s2);
    lemma_contiguous_covers(s2.spec_dispatched(), s2.spec_resume_offset() as int);
}


/// The bytes of a run of writes, concatenated in issue order.
pub open spec fn concat_writes(ws: Seq<WriteRec>) -> Seq<u8>
    decreases ws.len(),
{
    if ws.len() == 0 {
        Seq::empty()
    } else {
        ws[0].data + concat_writes(ws.drop_first())
    }
}

/// Every write carried exactly the source bytes at its offset.
pub open spec fn writes_match_source(ws: Seq<WriteRec>, src: Seq<u8>) -> bool {
    forall|i: int|
        0 <= i < ws.len() ==> (#[trigger] ws[i]).offset + ws[i].data.len() <= src.len()
            && ws[i].data == src.subrange(ws[i].offset as int, ws[i].offset + ws[i].data.len())
}

proof fn lemma_writes_end_lower(ws: Seq<WriteRec>, start: int)
    requires
        writes_contiguous_from(ws, start),
    ensures
        writes_end(ws, start) >= start,
    decreases ws.len(),
{
    if ws.len() > 0 {
        lemma_writes_end_lower(ws.drop_first(), ws[0].offset + ws[0].data.len());
    }
}

/// Contiguous writes that each carry the source bytes at their offset
/// reassemble, in issue order, exactly the source segment they span.
pub proof fn lemma_writes_reassemble_source(ws: Seq<WriteRec>, start: int, src: Seq<u8>)
    requires
        writes_contiguous_from(ws, start),
        writes_match_source(ws, src),
        0 <= start <= src.len(),
        writes_end(ws, start) <= src.len(),
    ensures
        concat_writes(ws) == src.subrange(start, writes_end(ws, start)),
    decreases ws.len(),
{
    if ws.len() == 0 {
        assert(src.subrange(start, start) =~= Seq::<u8>::empty());
    } else {
        let rest = ws.drop_first();
        let mid = ws[0].offset + ws[0].data.len();
        assert(forall|k: int| 0 <= k < rest.len() ==> rest[k] == ws[k + 1]);
        assert(writes_end(ws, start) == writes_end(rest, mid));
        lemma_writes_end_lower(rest, mid);
        lemma_writes_reassemble_source(rest, mid, src);
        assert(ws[0].data == src.subrange(start, mid));
        assert(src.subrange(start, writes_end(ws, start)) =~= src.subrange(start, mid)
            + src.subrange(mid, writes_end(ws, start)));
    }
}

/// The byte-content half of the ordered-writes law.  When every write
/// the session issued carried exactly the source bytes at its offset —
/// as it does when each fetch returns its range's bytes, in whatever
/// completion order — the bytes written, in issue order, are exactly
/// the source segment from the resume offset up to the current write
/// position.
pub proof fn lemma_session_bytes_match_source(s: DownloadSession, src: Seq<u8>)
    requires
        s.wf(),
        src.len() == s.spec_total_size(),
        writes_match_source(s.spec_applied(), src),
    ensures
        concat_writes(s.spec_applied()) == src.subrange(
            s.spec_resume_offset() as int,
            s.spec_written() as int,
        ),
{
    lemma_writes_reassemble_source(s.spec_applied(), s.spec_resume_offset() as int, src);
}

} // verus!
